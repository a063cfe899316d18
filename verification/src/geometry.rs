//! Vector tile geometries and their command streams: `MoveTo`, `LineTo` and
//! `ClosePath` commands with ZigZag-encoded cursor movements.
use vstd::prelude::*;

use crate::error::{MvtError, MvtResult};
use crate::proto::GeomType;
use crate::wire::{
    lemma_zigzag_roundtrip, zigzag_decode, zigzag_decode_i32, zigzag_encode, zigzag_encode_i32,
};

verus! {

/// A point in tile coordinates.
#[derive(Clone, Copy, Debug, PartialEq, Eq, Structural)]
pub struct MvtCoord {
    pub x: i32,
    pub y: i32,
}

/// A polygon: a closed exterior ring and closed interior rings (each ring
/// repeats its first point at its end).
#[derive(Clone, Debug, PartialEq)]
pub struct MvtPolygon {
    pub exterior: Vec<MvtCoord>,
    pub interiors: Vec<Vec<MvtCoord>>,
}

/// A geometry that a vector tile feature can carry.
#[derive(Clone, Debug, PartialEq)]
pub enum MvtGeometry {
    Point(MvtCoord),
    MultiPoint(Vec<MvtCoord>),
    LineString(Vec<MvtCoord>),
    MultiLineString(Vec<Vec<MvtCoord>>),
    Polygon(MvtPolygon),
    MultiPolygon(Vec<MvtPolygon>),
}

/// The model of a polygon.
pub struct PolygonModel {
    pub exterior: Seq<MvtCoord>,
    pub interiors: Seq<Seq<MvtCoord>>,
}

/// The model of a geometry.
pub enum GeometryModel {
    Point(MvtCoord),
    MultiPoint(Seq<MvtCoord>),
    LineString(Seq<MvtCoord>),
    MultiLineString(Seq<Seq<MvtCoord>>),
    Polygon(PolygonModel),
    MultiPolygon(Seq<PolygonModel>),
}

/// The points of each path in a list.
pub open spec fn paths_model(ps: Seq<Vec<MvtCoord>>) -> Seq<Seq<MvtCoord>> {
    Seq::new(ps.len(), |i: int| ps[i]@)
}

impl View for MvtPolygon {
    type V = PolygonModel;

    open spec fn view(&self) -> PolygonModel {
        PolygonModel { exterior: self.exterior@, interiors: paths_model(self.interiors@) }
    }
}

/// The models of a list of polygons.
pub open spec fn polygons_model(ps: Seq<MvtPolygon>) -> Seq<PolygonModel> {
    Seq::new(ps.len(), |i: int| ps[i]@)
}

impl View for MvtGeometry {
    type V = GeometryModel;

    open spec fn view(&self) -> GeometryModel {
        match self {
            MvtGeometry::Point(p) => GeometryModel::Point(*p),
            MvtGeometry::MultiPoint(ps) => GeometryModel::MultiPoint(ps@),
            MvtGeometry::LineString(ps) => GeometryModel::LineString(ps@),
            MvtGeometry::MultiLineString(ls) => GeometryModel::MultiLineString(paths_model(ls@)),
            MvtGeometry::Polygon(p) => GeometryModel::Polygon(p@),
            MvtGeometry::MultiPolygon(ps) => GeometryModel::MultiPolygon(polygons_model(ps@)),
        }
    }
}

// ----- command streams -----

/// `MoveTo`: start a new path at a point.
pub open spec fn move_to_id() -> nat {
    1
}

/// `LineTo`: extend the current path to a point.
pub open spec fn line_to_id() -> nat {
    2
}

/// `ClosePath`: close the current ring.
pub open spec fn close_path_id() -> nat {
    7
}

/// The largest command count a command integer can carry.
pub open spec fn max_command_count() -> nat {
    536870911
}

/// A command integer: the command id in the low three bits, the count above.
pub open spec fn command(id: nat, count: nat) -> nat {
    count * 8 + id
}

/// Two's-complement wrap-around of a sum or difference of two 32-bit values.
pub open spec fn wrap32(v: int) -> int {
    if v < i32::MIN {
        v + 4294967296
    } else if v > i32::MAX {
        v - 4294967296
    } else {
        v
    }
}

/// The cursor after moving it by a ZigZag-encoded delta pair.
pub open spec fn moved(cur: MvtCoord, dx: u32, dy: u32) -> MvtCoord {
    MvtCoord {
        x: wrap32(cur.x + zigzag_decode(dx as nat)) as i32,
        y: wrap32(cur.y + zigzag_decode(dy as nat)) as i32,
    }
}

/// What a command stream does, one point at a time.
#[derive(Clone, Copy, Debug, PartialEq, Eq, Structural)]
pub enum PathEvent {
    Move(MvtCoord),
    Line(MvtCoord),
    Close,
}

/// Reads a command stream into path events, from a cursor at `cur`, with
/// `rem` parameter pairs of command `id` still to read. A command must be a
/// `MoveTo` or `LineTo` with a count of at least one and all its parameters
/// present, or a `ClosePath` with a count of one.
pub open spec fn path_events(cmds: Seq<u32>, cur: MvtCoord, id: nat, rem: nat) -> Option<Seq<PathEvent>>
    decreases cmds.len(),
{
    if rem > 0 {
        if cmds.len() < 2 {
            None
        } else {
            let p = moved(cur, cmds[0], cmds[1]);
            let e = if id == move_to_id() { PathEvent::Move(p) } else { PathEvent::Line(p) };
            match path_events(cmds.skip(2), p, id, (rem - 1) as nat) {
                Some(r) => Some(seq![e] + r),
                None => None,
            }
        }
    } else if cmds.len() == 0 {
        Some(seq![])
    } else {
        let c = cmds[0] as nat;
        let cid = c % 8;
        let n = c / 8;
        if (cid == move_to_id() || cid == line_to_id()) && n >= 1 {
            path_events(cmds.skip(1), cur, cid, n)
        } else if cid == close_path_id() && n == 1 {
            match path_events(cmds.skip(1), cur, 0, 0) {
                Some(r) => Some(seq![PathEvent::Close] + r),
                None => None,
            }
        } else {
            None
        }
    }
}

/// The events of a whole command stream, from a cursor at the origin.
pub open spec fn stream_events(cmds: Seq<u32>) -> Option<Seq<PathEvent>> {
    path_events(cmds, MvtCoord { x: 0, y: 0 }, 0, 0)
}

/// The points of a stream of point geometry: only `MoveTo` events.
pub open spec fn points_of(evs: Seq<PathEvent>) -> Option<Seq<MvtCoord>>
    decreases evs.len(),
{
    if evs.len() == 0 {
        Some(seq![])
    } else {
        match evs[0] {
            PathEvent::Move(p) => match points_of(evs.drop_first()) {
                Some(r) => Some(seq![p] + r),
                None => None,
            },
            _ => None,
        }
    }
}

/// The line strings of a stream of line geometry: each a `MoveTo` followed
/// by one or more `LineTo` events. `open` is the line being read.
pub open spec fn lines_of(evs: Seq<PathEvent>, acc: Seq<Seq<MvtCoord>>, open: Seq<MvtCoord>) -> Option<Seq<Seq<MvtCoord>>>
    decreases evs.len(),
{
    if evs.len() == 0 {
        if open.len() == 0 {
            Some(acc)
        } else if open.len() >= 2 {
            Some(acc.push(open))
        } else {
            None
        }
    } else {
        match evs[0] {
            PathEvent::Move(p) => if open.len() == 1 {
                None
            } else {
                lines_of(
                    evs.drop_first(),
                    if open.len() >= 2 { acc.push(open) } else { acc },
                    seq![p],
                )
            },
            PathEvent::Line(p) => if open.len() == 0 {
                None
            } else {
                lines_of(evs.drop_first(), acc, open.push(p))
            },
            PathEvent::Close => None,
        }
    }
}

/// The rings of a stream of polygon geometry: each a `MoveTo`, two or more
/// `LineTo` events and a `ClosePath`; a ring repeats its first point at its
/// end. `open` is the ring being read.
pub open spec fn rings_of(evs: Seq<PathEvent>, acc: Seq<Seq<MvtCoord>>, open: Seq<MvtCoord>) -> Option<Seq<Seq<MvtCoord>>>
    decreases evs.len(),
{
    if evs.len() == 0 {
        if open.len() == 0 { Some(acc) } else { None }
    } else {
        match evs[0] {
            PathEvent::Move(p) => if open.len() != 0 {
                None
            } else {
                rings_of(evs.drop_first(), acc, seq![p])
            },
            PathEvent::Line(p) => if open.len() == 0 {
                None
            } else {
                rings_of(evs.drop_first(), acc, open.push(p))
            },
            PathEvent::Close => if open.len() < 3 {
                None
            } else {
                rings_of(evs.drop_first(), acc.push(open.push(open[0])), seq![])
            },
        }
    }
}

/// The cross product of two consecutive vertices.
pub open spec fn cross(a: MvtCoord, b: MvtCoord) -> int {
    a.x * b.y - b.x * a.y
}

/// Twice the signed area of the path through the first `n` points of `r`
/// (the surveyor's formula); for a closed ring, twice its area. Positive
/// area makes an exterior ring, negative an interior one.
pub open spec fn area2_prefix(r: Seq<MvtCoord>, n: nat) -> int
    decreases n,
{
    if n <= 1 || n > r.len() {
        0
    } else {
        area2_prefix(r, (n - 1) as nat) + cross(r[n - 2], r[n - 1])
    }
}

/// Twice the signed area of a closed ring.
pub open spec fn area2(r: Seq<MvtCoord>) -> int {
    area2_prefix(r, r.len())
}

/// Groups rings into polygons: a ring of positive area starts a polygon, a
/// ring of negative area is a hole of the polygon before it; a ring of zero
/// area, or a hole before any polygon, is refused.
pub open spec fn assemble(rings: Seq<Seq<MvtCoord>>, acc: Seq<PolygonModel>) -> Option<Seq<PolygonModel>>
    decreases rings.len(),
{
    if rings.len() == 0 {
        Some(acc)
    } else {
        let r = rings[0];
        let a = area2(r);
        if a > 0 {
            assemble(rings.drop_first(), acc.push(PolygonModel { exterior: r, interiors: seq![] }))
        } else if a < 0 && acc.len() > 0 {
            let last = acc.last();
            assemble(
                rings.drop_first(),
                acc.update(
                    acc.len() - 1,
                    PolygonModel { exterior: last.exterior, interiors: last.interiors.push(r) },
                ),
            )
        } else {
            None
        }
    }
}

/// Decodes a feature's geometry from its declared type and its command
/// stream. A single point, line string or polygon is returned as such; any
/// other number of them as the corresponding multi-geometry. A missing or
/// unknown type, or a stream that does not fit the type, is refused.
pub open spec fn decode_geometry_spec(t: Option<GeomType>, cmds: Seq<u32>) -> Option<GeometryModel> {
    match stream_events(cmds) {
        None => None,
        Some(evs) => match t {
            Some(GeomType::Point) => match points_of(evs) {
                Some(ps) => Some(
                    if ps.len() == 1 { GeometryModel::Point(ps[0]) } else { GeometryModel::MultiPoint(ps) },
                ),
                None => None,
            },
            Some(GeomType::Linestring) => match lines_of(evs, seq![], seq![]) {
                Some(ls) => Some(
                    if ls.len() == 1 {
                        GeometryModel::LineString(ls[0])
                    } else {
                        GeometryModel::MultiLineString(ls)
                    },
                ),
                None => None,
            },
            Some(GeomType::Polygon) => match rings_of(evs, seq![], seq![]) {
                Some(rs) => match assemble(rs, seq![]) {
                    Some(ps) => Some(
                        if ps.len() == 1 {
                            GeometryModel::Polygon(ps[0])
                        } else {
                            GeometryModel::MultiPolygon(ps)
                        },
                    ),
                    None => None,
                },
                None => None,
            },
            _ => None,
        },
    }
}


// ----- decoding -----

/// Adds two 32-bit values with wrap-around.
pub fn wrapping_add_i32(a: i32, b: i32) -> (r: i32)
    ensures
        r == wrap32(a + b),
{
    let s = a as i64 + b as i64;
    if s < -2147483648 {
        (s + 4294967296) as i32
    } else if s > 2147483647 {
        (s - 4294967296) as i32
    } else {
        s as i32
    }
}

/// Subtracts two 32-bit values with wrap-around.
pub fn wrapping_sub_i32(a: i32, b: i32) -> (r: i32)
    ensures
        r == wrap32(a - b),
{
    let s = a as i64 - b as i64;
    if s < -2147483648 {
        (s + 4294967296) as i32
    } else if s > 2147483647 {
        (s - 4294967296) as i32
    } else {
        s as i32
    }
}

fn moved_exec(cur: MvtCoord, dx: u32, dy: u32) -> (p: MvtCoord)
    ensures
        p == moved(cur, dx, dy),
{
    MvtCoord {
        x: wrapping_add_i32(cur.x, zigzag_decode_i32(dx)),
        y: wrapping_add_i32(cur.y, zigzag_decode_i32(dy)),
    }
}

/// Reads a command stream into path events.
pub fn read_path_events(cmds: &[u32]) -> (r: Option<Vec<PathEvent>>)
    ensures
        match stream_events(cmds@) {
            Some(e) => r matches Some(v) && v@ == e,
            None => r.is_none(),
        },
{
    let mut out: Vec<PathEvent> = Vec::new();
    let mut pos: usize = 0;
    let mut cur = MvtCoord { x: 0, y: 0 };
    let mut id: u32 = 0;
    let mut rem: u32 = 0;
    let n = cmds.len();
    assert(cmds@.skip(0) =~= cmds@);
    while pos < n || rem > 0
        invariant
            n == cmds@.len(),
            pos <= n,
            stream_events(cmds@) == match path_events(cmds@.skip(pos as int), cur, id as nat, rem as nat) {
                Some(r) => Some(out@ + r),
                None => None,
            },
        decreases n - pos, rem,
    {
        let ghost t = cmds@.skip(pos as int);
        if rem > 0 {
            if n - pos < 2 {
                return None;
            }
            let p = moved_exec(cur, cmds[pos], cmds[pos + 1]);
            let e = if id == 1 { PathEvent::Move(p) } else { PathEvent::Line(p) };
            proof {
                assert(t.skip(2) =~= cmds@.skip(pos + 2));
                if let Some(r) = path_events(t.skip(2), p, id as nat, (rem - 1) as nat) {
                    assert(out@.push(e) + r =~= out@ + (seq![e] + r));
                }
            }
            out.push(e);
            cur = p;
            pos = pos + 2;
            rem = rem - 1;
        } else {
            let c = cmds[pos];
            let cid = c % 8;
            let cnt = c / 8;
            assert(t.skip(1) =~= cmds@.skip(pos + 1));
            if (cid == 1 || cid == 2) && cnt >= 1 {
                id = cid;
                rem = cnt;
                pos = pos + 1;
            } else if cid == 7 && cnt == 1 {
                proof {
                    if let Some(r) = path_events(t.skip(1), cur, 0, 0) {
                        assert(out@.push(PathEvent::Close) + r =~= out@ + (seq![PathEvent::Close] + r));
                    }
                }
                out.push(PathEvent::Close);
                id = 0;
                pos = pos + 1;
            } else {
                return None;
            }
        }
    }
    assert(cmds@.skip(pos as int) =~= Seq::<u32>::empty());
    assert(out@ + Seq::<PathEvent>::empty() =~= out@);
    Some(out)
}

/// The points of a point geometry's events.
fn points_of_exec(evs: &Vec<PathEvent>) -> (r: Option<Vec<MvtCoord>>)
    ensures
        match points_of(evs@) {
            Some(ps) => r matches Some(v) && v@ == ps,
            None => r.is_none(),
        },
{
    let mut out: Vec<MvtCoord> = Vec::new();
    let mut i: usize = 0;
    assert(evs@.skip(0) =~= evs@);
    while i < evs.len()
        invariant
            i <= evs@.len(),
            points_of(evs@) == match points_of(evs@.skip(i as int)) {
                Some(r) => Some(out@ + r),
                None => None,
            },
        decreases evs@.len() - i,
    {
        let ghost t = evs@.skip(i as int);
        assert(t.drop_first() =~= evs@.skip(i + 1));
        match evs[i] {
            PathEvent::Move(p) => {
                proof {
                    if let Some(r) = points_of(t.drop_first()) {
                        assert(out@.push(p) + r =~= out@ + (seq![p] + r));
                    }
                }
                out.push(p);
            },
            _ => return None,
        }
        i = i + 1;
    }
    assert(evs@.skip(i as int) =~= Seq::<PathEvent>::empty());
    assert(out@ + Seq::<MvtCoord>::empty() =~= out@);
    Some(out)
}

/// The line strings of a line geometry's events.
fn lines_of_exec(evs: &Vec<PathEvent>) -> (r: Option<Vec<Vec<MvtCoord>>>)
    ensures
        match lines_of(evs@, seq![], seq![]) {
            Some(ls) => r matches Some(v) && paths_model(v@) == ls,
            None => r.is_none(),
        },
{
    let mut acc: Vec<Vec<MvtCoord>> = Vec::new();
    let mut open: Vec<MvtCoord> = Vec::new();
    let mut i: usize = 0;
    assert(evs@.skip(0) =~= evs@);
    assert(paths_model(acc@) =~= Seq::<Seq<MvtCoord>>::empty());
    while i < evs.len()
        invariant
            i <= evs@.len(),
            lines_of(evs@, seq![], seq![]) == lines_of(evs@.skip(i as int), paths_model(acc@), open@),
        decreases evs@.len() - i,
    {
        let ghost t = evs@.skip(i as int);
        assert(t.drop_first() =~= evs@.skip(i + 1));
        match evs[i] {
            PathEvent::Move(p) => {
                if open.len() == 1 {
                    return None;
                }
                if open.len() >= 2 {
                    let ghost before = acc@;
                    let ghost o = open@;
                    acc.push(open);
                    assert(paths_model(acc@) =~= paths_model(before).push(o));
                }
                open = Vec::new();
                open.push(p);
                assert(open@ =~= seq![p]);
            },
            PathEvent::Line(p) => {
                if open.len() == 0 {
                    return None;
                }
                open.push(p);
            },
            PathEvent::Close => return None,
        }
        i = i + 1;
    }
    assert(evs@.skip(i as int) =~= Seq::<PathEvent>::empty());
    if open.len() == 0 {
        Some(acc)
    } else if open.len() >= 2 {
        let ghost before = acc@;
        let ghost o = open@;
        acc.push(open);
        assert(paths_model(acc@) =~= paths_model(before).push(o));
        Some(acc)
    } else {
        None
    }
}

/// The rings of a polygon geometry's events.
fn rings_of_exec(evs: &Vec<PathEvent>) -> (r: Option<Vec<Vec<MvtCoord>>>)
    ensures
        match rings_of(evs@, seq![], seq![]) {
            Some(rs) => r matches Some(v) && paths_model(v@) == rs,
            None => r.is_none(),
        },
{
    let mut acc: Vec<Vec<MvtCoord>> = Vec::new();
    let mut open: Vec<MvtCoord> = Vec::new();
    let mut i: usize = 0;
    assert(evs@.skip(0) =~= evs@);
    assert(paths_model(acc@) =~= Seq::<Seq<MvtCoord>>::empty());
    while i < evs.len()
        invariant
            i <= evs@.len(),
            rings_of(evs@, seq![], seq![]) == rings_of(evs@.skip(i as int), paths_model(acc@), open@),
        decreases evs@.len() - i,
    {
        let ghost t = evs@.skip(i as int);
        assert(t.drop_first() =~= evs@.skip(i + 1));
        match evs[i] {
            PathEvent::Move(p) => {
                if open.len() != 0 {
                    return None;
                }
                open.push(p);
                assert(open@ =~= seq![p]);
            },
            PathEvent::Line(p) => {
                if open.len() == 0 {
                    return None;
                }
                open.push(p);
            },
            PathEvent::Close => {
                if open.len() < 3 {
                    return None;
                }
                let first = open[0];
                open.push(first);
                let ghost before = acc@;
                let ghost o = open@;
                acc.push(open);
                assert(paths_model(acc@) =~= paths_model(before).push(o));
                open = Vec::new();
                assert(open@ =~= Seq::<MvtCoord>::empty());
            },
        }
        i = i + 1;
    }
    assert(evs@.skip(i as int) =~= Seq::<PathEvent>::empty());
    if open.len() == 0 {
        Some(acc)
    } else {
        None
    }
}

proof fn lemma_cross_bound(a: MvtCoord, b: MvtCoord)
    ensures
        -9223372036854775808 <= cross(a, b) <= 9223372036854775808,
{
    let ax = a.x as int;
    let ay = a.y as int;
    let bx = b.x as int;
    let by_ = b.y as int;
    assert(-4611686018427387904 <= ax * by_ <= 4611686018427387904) by (nonlinear_arith)
        requires
            -2147483648 <= ax <= 2147483647,
            -2147483648 <= by_ <= 2147483647,
    ;
    assert(-4611686018427387904 <= bx * ay <= 4611686018427387904) by (nonlinear_arith)
        requires
            -2147483648 <= bx <= 2147483647,
            -2147483648 <= ay <= 2147483647,
    ;
}

/// Twice the signed area of a ring.
pub fn ring_area2(r: &Vec<MvtCoord>) -> (a: i128)
    ensures
        a == area2(r@),
{
    let n = r.len();
    if n <= 1 {
        return 0;
    }
    let mut a: i128 = 0;
    let mut i: usize = 1;
    while i < n
        invariant
            1 <= i <= n,
            n == r@.len(),
            a == area2_prefix(r@, i as nat),
            -9223372036854775808 * i <= a <= 9223372036854775808 * i,
        decreases n - i,
    {
        let p = r[i - 1];
        let q = r[i];
        proof {
            lemma_cross_bound(p, q);
        }
        let px = p.x as i64;
        let py = p.y as i64;
        let qx = q.x as i64;
        let qy = q.y as i64;
        assert(-4611686018427387904 <= px * qy <= 4611686018427387904) by (nonlinear_arith)
            requires
                -2147483648 <= px <= 2147483647,
                -2147483648 <= qy <= 2147483647,
        ;
        assert(-4611686018427387904 <= qx * py <= 4611686018427387904) by (nonlinear_arith)
            requires
                -2147483648 <= qx <= 2147483647,
                -2147483648 <= py <= 2147483647,
        ;
        let c = (px * qy) as i128 - (qx * py) as i128;
        a = a + c;
        i = i + 1;
    }
    a
}

/// Groups rings into polygons as [`assemble`] states.
fn assemble_exec(rings: Vec<Vec<MvtCoord>>) -> (r: Option<Vec<MvtPolygon>>)
    ensures
        match assemble(paths_model(rings@), seq![]) {
            Some(ps) => r matches Some(v) && polygons_model(v@) == ps,
            None => r.is_none(),
        },
{
    let ghost rs = paths_model(rings@);
    let mut acc: Vec<MvtPolygon> = Vec::new();
    let mut i: usize = 0;
    let n = rings.len();
    assert(rs.skip(0) =~= rs);
    assert(polygons_model(acc@) =~= Seq::<PolygonModel>::empty());
    while i < n
        invariant
            i <= n,
            n == rings@.len(),
            rs == paths_model(rings@),
            assemble(rs, seq![]) == assemble(rs.skip(i as int), polygons_model(acc@)),
        decreases n - i,
    {
        let ring = rings[i].clone();
        assert(ring@ == rs[i as int]);
        assert(rs.skip(i as int).drop_first() =~= rs.skip(i + 1));
        assert(rs.skip(i as int)[0] == rs[i as int]);
        let a = ring_area2(&ring);
        if a > 0 {
            let ghost before = acc@;
            let poly = MvtPolygon { exterior: ring, interiors: Vec::new() };
            assert(poly@.interiors =~= Seq::<Seq<MvtCoord>>::empty());
            acc.push(poly);
            assert(polygons_model(acc@) =~= polygons_model(before).push(
                PolygonModel { exterior: rs[i as int], interiors: seq![] },
            ));
        } else if a < 0 && acc.len() > 0 {
            let ghost before = polygons_model(acc@);
            let mut last = acc.pop().unwrap();
            let ghost lm = last@;
            assert(lm == before.last());
            let ghost ib = last.interiors@;
            last.interiors.push(ring);
            assert(paths_model(last.interiors@) =~= paths_model(ib).push(rs[i as int]));
            acc.push(last);
            assert(polygons_model(acc@) =~= before.update(
                before.len() - 1,
                PolygonModel { exterior: lm.exterior, interiors: lm.interiors.push(rs[i as int]) },
            ));
        } else {
            return None;
        }
        i = i + 1;
    }
    assert(rs.skip(i as int) =~= Seq::<Seq<MvtCoord>>::empty());
    Some(acc)
}

/// Decodes a feature's geometry from its declared type and its commands.
pub fn decode_geometry(t: Option<GeomType>, cmds: &[u32]) -> (r: MvtResult<MvtGeometry>)
    ensures
        match decode_geometry_spec(t, cmds@) {
            Some(g) => r matches Ok(x) && x@ == g,
            None => r matches Err(MvtError::InvalidGeometry),
        },
{
    let evs = match read_path_events(cmds) {
        Some(e) => e,
        None => return Err(MvtError::InvalidGeometry),
    };
    match t {
        Some(GeomType::Point) => match points_of_exec(&evs) {
            Some(mut ps) => {
                if ps.len() == 1 {
                    Ok(MvtGeometry::Point(ps[0]))
                } else {
                    Ok(MvtGeometry::MultiPoint(ps))
                }
            },
            None => Err(MvtError::InvalidGeometry),
        },
        Some(GeomType::Linestring) => match lines_of_exec(&evs) {
            Some(mut ls) => {
                if ls.len() == 1 {
                    let l = ls.pop().unwrap();
                    Ok(MvtGeometry::LineString(l))
                } else {
                    Ok(MvtGeometry::MultiLineString(ls))
                }
            },
            None => Err(MvtError::InvalidGeometry),
        },
        Some(GeomType::Polygon) => match rings_of_exec(&evs) {
            Some(rs) => match assemble_exec(rs) {
                Some(mut ps) => {
                    if ps.len() == 1 {
                        let p = ps.pop().unwrap();
                        Ok(MvtGeometry::Polygon(p))
                    } else {
                        Ok(MvtGeometry::MultiPolygon(ps))
                    }
                },
                None => Err(MvtError::InvalidGeometry),
            },
            None => Err(MvtError::InvalidGeometry),
        },
        _ => Err(MvtError::InvalidGeometry),
    }
}


// ----- encoding -----

/// The command integer of `id` with count `n`.
pub open spec fn cmd(id: nat, n: nat) -> u32 {
    command(id, n) as u32
}

/// The ZigZag parameter that moves the cursor from `from` to `to` on one axis.
pub open spec fn delta_param(to: i32, from: i32) -> u32 {
    zigzag_encode(wrap32(to - from)) as u32
}

/// The parameter pair that moves the cursor from `cur` to `p`.
pub open spec fn delta_pair(p: MvtCoord, cur: MvtCoord) -> Seq<u32> {
    seq![delta_param(p.x, cur.x), delta_param(p.y, cur.y)]
}

/// The parameter pairs that visit `ps` in turn, from a cursor at `cur`.
pub open spec fn deltas(ps: Seq<MvtCoord>, cur: MvtCoord) -> Seq<u32>
    decreases ps.len(),
{
    if ps.len() == 0 {
        seq![]
    } else {
        delta_pair(ps[0], cur) + deltas(ps.drop_first(), ps[0])
    }
}

/// Where the cursor is after visiting `ps` from `cur`.
pub open spec fn last_or(ps: Seq<MvtCoord>, cur: MvtCoord) -> MvtCoord {
    if ps.len() == 0 { cur } else { ps.last() }
}

/// The commands of a point geometry: one `MoveTo` for all its points.
pub open spec fn points_cmds(ps: Seq<MvtCoord>) -> Seq<u32> {
    if ps.len() == 0 {
        seq![]
    } else {
        seq![cmd(move_to_id(), ps.len())] + deltas(ps, MvtCoord { x: 0, y: 0 })
    }
}

/// The commands of one line string from a cursor at `cur`: a `MoveTo` to its
/// first point and a `LineTo` through the others.
pub open spec fn line_cmds(l: Seq<MvtCoord>, cur: MvtCoord) -> Seq<u32> {
    seq![cmd(move_to_id(), 1)] + delta_pair(l[0], cur) + seq![cmd(line_to_id(), (l.len() - 1) as nat)]
        + deltas(l.drop_first(), l[0])
}

/// The commands of line strings, one after the other.
pub open spec fn lines_cmds(ls: Seq<Seq<MvtCoord>>, cur: MvtCoord) -> Seq<u32>
    decreases ls.len(),
{
    if ls.len() == 0 {
        seq![]
    } else {
        line_cmds(ls[0], cur) + lines_cmds(ls.drop_first(), ls[0].last())
    }
}

/// The commands of one closed ring from a cursor at `cur`: a `MoveTo` to its
/// first point, a `LineTo` through the others but the repeated last one, and
/// a `ClosePath`.
pub open spec fn ring_cmds(r: Seq<MvtCoord>, cur: MvtCoord) -> Seq<u32> {
    seq![cmd(move_to_id(), 1)] + delta_pair(r[0], cur) + seq![cmd(line_to_id(), (r.len() - 2) as nat)]
        + deltas(r.subrange(1, r.len() - 1), r[0]) + seq![cmd(close_path_id(), 1)]
}

/// The commands of rings, one after the other; the cursor stays on the last
/// point a ring visits before its `ClosePath`.
pub open spec fn rings_cmds(rs: Seq<Seq<MvtCoord>>, cur: MvtCoord) -> Seq<u32>
    decreases rs.len(),
{
    if rs.len() == 0 {
        seq![]
    } else {
        ring_cmds(rs[0], cur) + rings_cmds(rs.drop_first(), rs[0][rs[0].len() - 2])
    }
}

/// The rings of polygons in order: each exterior followed by its interiors.
pub open spec fn polygon_rings(ps: Seq<PolygonModel>) -> Seq<Seq<MvtCoord>>
    decreases ps.len(),
{
    if ps.len() == 0 {
        seq![]
    } else {
        seq![ps[0].exterior] + ps[0].interiors + polygon_rings(ps.drop_first())
    }
}

/// A line string that can be written: at least two points, and a count that
/// fits in a command.
pub open spec fn line_writable(l: Seq<MvtCoord>) -> bool {
    2 <= l.len() <= max_command_count() + 1
}

/// A ring that can be written: closed, with at least three distinct
/// positions, and a count that fits in a command.
pub open spec fn ring_writable(r: Seq<MvtCoord>) -> bool {
    &&& 4 <= r.len() <= max_command_count() + 2
    &&& r[0] == r[r.len() - 1]
}

/// Every ring of the polygons can be written.
pub open spec fn polygons_writable(ps: Seq<PolygonModel>) -> bool {
    forall|i: int| 0 <= i < polygon_rings(ps).len() ==> ring_writable(#[trigger] polygon_rings(ps)[i])
}

/// Encodes a geometry: its type and its command stream, or `None` when it
/// cannot be written (a line string of fewer than two points, a ring that is
/// not closed or has fewer than four points, a count too large for a command).
pub open spec fn encode_geometry_spec(g: GeometryModel) -> Option<(GeomType, Seq<u32>)> {
    match g {
        GeometryModel::Point(p) => Some((GeomType::Point, points_cmds(seq![p]))),
        GeometryModel::MultiPoint(ps) => if ps.len() <= max_command_count() {
            Some((GeomType::Point, points_cmds(ps)))
        } else {
            None
        },
        GeometryModel::LineString(l) => if line_writable(l) {
            Some((GeomType::Linestring, lines_cmds(seq![l], MvtCoord { x: 0, y: 0 })))
        } else {
            None
        },
        GeometryModel::MultiLineString(ls) => if forall|i: int| 0 <= i < ls.len() ==> line_writable(#[trigger] ls[i]) {
            Some((GeomType::Linestring, lines_cmds(ls, MvtCoord { x: 0, y: 0 })))
        } else {
            None
        },
        GeometryModel::Polygon(p) => if polygons_writable(seq![p]) {
            Some((GeomType::Polygon, rings_cmds(polygon_rings(seq![p]), MvtCoord { x: 0, y: 0 })))
        } else {
            None
        },
        GeometryModel::MultiPolygon(ps) => if polygons_writable(ps) {
            Some((GeomType::Polygon, rings_cmds(polygon_rings(ps), MvtCoord { x: 0, y: 0 })))
        } else {
            None
        },
    }
}


/// Where the cursor is after the rings `rs`, from `cur`.
pub open spec fn rings_cursor(rs: Seq<Seq<MvtCoord>>, cur: MvtCoord) -> MvtCoord {
    if rs.len() == 0 {
        cur
    } else {
        rs.last()[rs.last().len() - 2]
    }
}

/// Where the cursor is after the line strings `ls`, from `cur`.
pub open spec fn lines_cursor(ls: Seq<Seq<MvtCoord>>, cur: MvtCoord) -> MvtCoord {
    if ls.len() == 0 {
        cur
    } else {
        ls.last().last()
    }
}

/// The cursor movements to one more point follow those to the points before it.
pub proof fn lemma_deltas_push(ps: Seq<MvtCoord>, x: MvtCoord, cur: MvtCoord)
    ensures
        deltas(ps.push(x), cur) == deltas(ps, cur) + delta_pair(x, last_or(ps, cur)),
    decreases ps.len(),
{
    if ps.len() == 0 {
        assert(ps.push(x).drop_first() =~= ps);
        assert(ps.push(x)[0] == x);
        assert(deltas(ps, cur) == Seq::<u32>::empty());
        assert(deltas(ps.push(x).drop_first(), x) == Seq::<u32>::empty());
        assert(deltas(ps.push(x), cur) =~= deltas(ps, cur) + delta_pair(x, last_or(ps, cur)));
    } else {
        assert(ps.push(x).drop_first() =~= ps.drop_first().push(x));
        lemma_deltas_push(ps.drop_first(), x, ps[0]);
        assert(deltas(ps.push(x), cur) =~= deltas(ps, cur) + delta_pair(x, last_or(ps, cur)));
    }
}

/// The commands of two runs of line strings follow each other, the second starting from where the first left the cursor.
pub proof fn lemma_lines_cmds_concat(a: Seq<Seq<MvtCoord>>, b: Seq<Seq<MvtCoord>>, cur: MvtCoord)
    ensures
        lines_cmds(a + b, cur) == lines_cmds(a, cur) + lines_cmds(b, lines_cursor(a, cur)),
    decreases a.len(),
{
    if a.len() == 0 {
        assert(a + b =~= b);
        assert(lines_cmds(a, cur) + lines_cmds(b, cur) =~= lines_cmds(b, cur));
    } else {
        assert((a + b).drop_first() =~= a.drop_first() + b);
        assert((a + b)[0] == a[0]);
        lemma_lines_cmds_concat(a.drop_first(), b, a[0].last());
        if a.len() > 1 {
            assert(a.drop_first().last() == a.last());
        }
        assert(lines_cmds(a + b, cur) =~= lines_cmds(a, cur) + lines_cmds(b, lines_cursor(a, cur)));
    }
}

/// The commands of two runs of rings follow each other, the second starting from where the first left the cursor.
pub proof fn lemma_rings_cmds_concat(a: Seq<Seq<MvtCoord>>, b: Seq<Seq<MvtCoord>>, cur: MvtCoord)
    ensures
        rings_cmds(a + b, cur) == rings_cmds(a, cur) + rings_cmds(b, rings_cursor(a, cur)),
    decreases a.len(),
{
    if a.len() == 0 {
        assert(a + b =~= b);
        assert(rings_cmds(a, cur) + rings_cmds(b, cur) =~= rings_cmds(b, cur));
    } else {
        assert((a + b).drop_first() =~= a.drop_first() + b);
        assert((a + b)[0] == a[0]);
        lemma_rings_cmds_concat(a.drop_first(), b, a[0][a[0].len() - 2]);
        if a.len() > 1 {
            assert(a.drop_first().last() == a.last());
        }
        assert(rings_cmds(a + b, cur) =~= rings_cmds(a, cur) + rings_cmds(b, rings_cursor(a, cur)));
    }
}

/// The rings of two runs of polygons follow each other.
pub proof fn lemma_polygon_rings_concat(a: Seq<PolygonModel>, b: Seq<PolygonModel>)
    ensures
        polygon_rings(a + b) == polygon_rings(a) + polygon_rings(b),
    decreases a.len(),
{
    if a.len() == 0 {
        assert(a + b =~= b);
        assert(polygon_rings(a) + polygon_rings(b) =~= polygon_rings(b));
    } else {
        assert((a + b).drop_first() =~= a.drop_first() + b);
        assert((a + b)[0] == a[0]);
        lemma_polygon_rings_concat(a.drop_first(), b);
        assert(polygon_rings(a + b) =~= polygon_rings(a) + polygon_rings(b));
    }
}

/// The rings of one polygon: its exterior, then its interiors.
pub proof fn lemma_polygon_rings_single(p: PolygonModel)
    ensures
        polygon_rings(seq![p]) == seq![p.exterior] + p.interiors,
{
    assert(seq![p].drop_first() =~= Seq::<PolygonModel>::empty());
    assert(seq![p][0] == p);
    assert(polygon_rings(seq![p].drop_first()) == Seq::<Seq<MvtCoord>>::empty());
    assert(polygon_rings(seq![p]) =~= seq![p.exterior] + p.interiors);
}

/// The cursor movement to a single point.
pub proof fn lemma_deltas_single(p: MvtCoord, cur: MvtCoord)
    ensures
        deltas(seq![p], cur) == delta_pair(p, cur),
{
    assert(seq![p].drop_first() =~= Seq::<MvtCoord>::empty());
    assert(seq![p][0] == p);
    assert(deltas(seq![p].drop_first(), p) == Seq::<u32>::empty());
    assert(deltas(seq![p], cur) =~= delta_pair(p, cur));
}

/// The commands of a single line string.
pub proof fn lemma_lines_cmds_single(l: Seq<MvtCoord>, cur: MvtCoord)
    ensures
        lines_cmds(seq![l], cur) == line_cmds(l, cur),
{
    assert(seq![l].drop_first() =~= Seq::<Seq<MvtCoord>>::empty());
    assert(seq![l][0] == l);
    assert(lines_cmds(seq![l].drop_first(), l.last()) == Seq::<u32>::empty());
    assert(lines_cmds(seq![l], cur) =~= line_cmds(l, cur));
}

/// The commands of a single ring.
pub proof fn lemma_rings_cmds_single(r: Seq<MvtCoord>, cur: MvtCoord)
    ensures
        rings_cmds(seq![r], cur) == ring_cmds(r, cur),
{
    assert(seq![r].drop_first() =~= Seq::<Seq<MvtCoord>>::empty());
    assert(seq![r][0] == r);
    assert(rings_cmds(seq![r].drop_first(), r[r.len() - 2]) == Seq::<u32>::empty());
    assert(rings_cmds(seq![r], cur) =~= ring_cmds(r, cur));
}

fn delta_param_exec(to: i32, from: i32) -> (r: u32)
    ensures
        r == delta_param(to, from),
{
    let d = wrapping_sub_i32(to, from);
    proof {
        lemma_zigzag_roundtrip(d as int);
    }
    zigzag_encode_i32(d)
}

fn push_pair(out: &mut Vec<u32>, p: MvtCoord, cur: MvtCoord)
    ensures
        final(out)@ == old(out)@ + delta_pair(p, cur),
{
    let dx = delta_param_exec(p.x, cur.x);
    let dy = delta_param_exec(p.y, cur.y);
    out.push(dx);
    out.push(dy);
    assert(final(out)@ =~= old(out)@ + delta_pair(p, cur));
}

fn push_cmd(out: &mut Vec<u32>, id: u32, n: usize)
    requires
        id <= 7,
        n <= max_command_count(),
    ensures
        final(out)@ == old(out)@.push(cmd(id as nat, n as nat)),
{
    out.push((n as u32) * 8 + id);
}

/// Appends the parameter pairs that visit `pts[from..to]` from `cur`.
fn push_deltas(out: &mut Vec<u32>, pts: &Vec<MvtCoord>, from: usize, to: usize, cur: MvtCoord)
    requires
        from <= to <= pts@.len(),
    ensures
        final(out)@ == old(out)@ + deltas(pts@.subrange(from as int, to as int), cur),
{
    let ghost start = out@;
    let mut i = from;
    let mut c = cur;
    assert(pts@.subrange(from as int, from as int) =~= Seq::<MvtCoord>::empty());
    assert(out@ =~= start + deltas(pts@.subrange(from as int, from as int), cur));
    while i < to
        invariant
            from <= i <= to <= pts@.len(),
            out@ == start + deltas(pts@.subrange(from as int, i as int), cur),
            c == last_or(pts@.subrange(from as int, i as int), cur),
        decreases to - i,
    {
        let p = pts[i];
        push_pair(out, p, c);
        proof {
            let sub = pts@.subrange(from as int, i as int);
            assert(pts@.subrange(from as int, i + 1) =~= sub.push(p));
            lemma_deltas_push(sub, p, cur);
            assert(out@ =~= start + deltas(sub.push(p), cur));
        }
        c = p;
        i = i + 1;
    }
}

/// Appends the commands of a line string; `false` when it cannot be written.
fn push_line(out: &mut Vec<u32>, l: &Vec<MvtCoord>, cur: MvtCoord) -> (ok: bool)
    ensures
        ok == line_writable(l@),
        ok ==> final(out)@ == old(out)@ + line_cmds(l@, cur),
{
    let n = l.len();
    if n < 2 || n - 1 > 536870911 {
        return false;
    }
    let ghost start = out@;
    push_cmd(out, 1, 1);
    push_pair(out, l[0], cur);
    push_cmd(out, 2, n - 1);
    push_deltas(out, l, 1, n, l[0]);
    assert(l@.subrange(1, n as int) =~= l@.drop_first());
    assert(out@ =~= start + line_cmds(l@, cur));
    true
}

/// Appends the commands of a ring; `false` when it cannot be written.
fn push_ring(out: &mut Vec<u32>, r: &Vec<MvtCoord>, cur: MvtCoord) -> (ok: bool)
    ensures
        ok == ring_writable(r@),
        ok ==> final(out)@ == old(out)@ + ring_cmds(r@, cur),
{
    let n = r.len();
    if n < 4 || n - 2 > 536870911 || r[0] != r[n - 1] {
        return false;
    }
    let ghost start = out@;
    push_cmd(out, 1, 1);
    push_pair(out, r[0], cur);
    push_cmd(out, 2, n - 2);
    push_deltas(out, r, 1, n - 1, r[0]);
    push_cmd(out, 7, 1);
    assert(out@ =~= start + ring_cmds(r@, cur));
    true
}

/// Appends the commands of a polygon's rings; the cursor after them, or
/// `None` when a ring cannot be written.
fn push_polygon(out: &mut Vec<u32>, p: &MvtPolygon, cur: MvtCoord) -> (r: Option<MvtCoord>)
    ensures
        r is Some == polygons_writable(seq![p@]),
        r matches Some(c) ==> final(out)@ == old(out)@ + rings_cmds(polygon_rings(seq![p@]), cur)
            && c == rings_cursor(polygon_rings(seq![p@]), cur),
{
    let ghost start = out@;
    let ghost rings = polygon_rings(seq![p@]);
    proof {
        lemma_polygon_rings_single(p@);
    }
    assert(rings[0] == p.exterior@);
    if !push_ring(out, &p.exterior, cur) {
        assert(!ring_writable(rings[0]));
        return None;
    }
    let n = p.exterior.len();
    let mut c = p.exterior[n - 2];
    proof {
        assert(rings.take(1) =~= seq![p.exterior@]);
        lemma_rings_cmds_single(p.exterior@, cur);
    }
    let mut i: usize = 0;
    while i < p.interiors.len()
        invariant
            i <= p.interiors@.len(),
            rings == seq![p.exterior@] + paths_model(p.interiors@),
            rings == polygon_rings(seq![p@]),
            4 <= p.exterior@.len(),
            forall|j: int| 0 <= j < 1 + i ==> ring_writable(#[trigger] rings[j]),
            out@ == start + rings_cmds(rings.take(1 + i), cur),
            c == rings_cursor(rings.take(1 + i), cur),
        decreases p.interiors@.len() - i,
    {
        let ghost c0 = c;
        assert(rings[1 + i] == p.interiors@[i as int]@);
        if !push_ring(out, &p.interiors[i], c) {
            assert(!ring_writable(rings[1 + i]));
            return None;
        }
        proof {
            let pre = rings.take(1 + i);
            let x = rings[1 + i];
            assert(rings.take(2 + i) =~= pre + seq![x]);
            lemma_rings_cmds_concat(pre, seq![x], cur);
            lemma_rings_cmds_single(x, c0);
            assert(out@ =~= start + rings_cmds(rings.take(2 + i), cur));
        }
        let m = p.interiors[i].len();
        c = p.interiors[i][m - 2];
        i = i + 1;
    }
    assert(rings.take(1 + i) =~= rings);
    Some(c)
}

/// Encodes a geometry into its type and command stream.
pub fn encode_geometry(g: &MvtGeometry) -> (r: MvtResult<(GeomType, Vec<u32>)>)
    ensures
        match encode_geometry_spec(g@) {
            Some((t, c)) => r matches Ok((t2, v)) && t2 == t && v@ == c,
            None => r matches Err(MvtError::InvalidGeometry),
        },
{
    let origin = MvtCoord { x: 0, y: 0 };
    let mut out: Vec<u32> = Vec::new();
    match g {
        MvtGeometry::Point(p) => {
            push_cmd(&mut out, 1, 1);
            push_pair(&mut out, *p, origin);
            proof {
                lemma_deltas_single(*p, origin);
                assert(out@ =~= points_cmds(seq![*p]));
            }
            Ok((GeomType::Point, out))
        },
        MvtGeometry::MultiPoint(ps) => {
            let n = ps.len();
            if n > 536870911 {
                return Err(MvtError::InvalidGeometry);
            }
            if n > 0 {
                push_cmd(&mut out, 1, n);
                push_deltas(&mut out, ps, 0, n, origin);
                assert(ps@.subrange(0, n as int) =~= ps@);
            }
            assert(out@ =~= points_cmds(ps@));
            Ok((GeomType::Point, out))
        },
        MvtGeometry::LineString(l) => {
            if !push_line(&mut out, l, origin) {
                return Err(MvtError::InvalidGeometry);
            }
            proof {
                lemma_lines_cmds_single(l@, origin);
            }
            Ok((GeomType::Linestring, out))
        },
        MvtGeometry::MultiLineString(ls) => {
            let ghost m = paths_model(ls@);
            let mut i: usize = 0;
            let mut c = origin;
            assert(m.take(0) =~= Seq::<Seq<MvtCoord>>::empty());
            while i < ls.len()
                invariant
                    i <= ls@.len(),
                    m == paths_model(ls@),
                    g@ == GeometryModel::MultiLineString(m),
                    forall|j: int| 0 <= j < i ==> line_writable(#[trigger] m[j]),
                    out@ == lines_cmds(m.take(i as int), origin),
                    c == lines_cursor(m.take(i as int), origin),
                decreases ls@.len() - i,
            {
                let ghost before = out@;
                let ghost c0 = c;
                assert(m[i as int] == ls@[i as int]@);
                if !push_line(&mut out, &ls[i], c) {
                    assert(!line_writable(m[i as int]));
                    assert(!(forall|j: int| 0 <= j < m.len() ==> line_writable(#[trigger] m[j])));
                    return Err(MvtError::InvalidGeometry);
                }
                proof {
                    let pre = m.take(i as int);
                    let x = m[i as int];
                    assert(m.take(i + 1) =~= pre + seq![x]);
                    lemma_lines_cmds_concat(pre, seq![x], origin);
                    lemma_lines_cmds_single(x, c0);
                    assert(out@ =~= lines_cmds(m.take(i + 1), origin));
                }
                let k = ls[i].len();
                c = ls[i][k - 1];
                i = i + 1;
            }
            assert(m.take(i as int) =~= m);
            Ok((GeomType::Linestring, out))
        },
        MvtGeometry::Polygon(p) => {
            match push_polygon(&mut out, p, origin) {
                Some(_) => {
                    assert(out@ =~= rings_cmds(polygon_rings(seq![p@]), origin));
                    Ok((GeomType::Polygon, out))
                },
                None => Err(MvtError::InvalidGeometry),
            }
        },
        MvtGeometry::MultiPolygon(ps) => {
            let ghost m = polygons_model(ps@);
            let mut i: usize = 0;
            let mut c = origin;
            assert(m.take(0) =~= Seq::<PolygonModel>::empty());
            while i < ps.len()
                invariant
                    i <= ps@.len(),
                    m == polygons_model(ps@),
                    g@ == GeometryModel::MultiPolygon(m),
                    polygons_writable(m.take(i as int)),
                    out@ == rings_cmds(polygon_rings(m.take(i as int)), origin),
                    c == rings_cursor(polygon_rings(m.take(i as int)), origin),
                decreases ps@.len() - i,
            {
                let ghost pre = m.take(i as int);
                let ghost x = m[i as int];
                assert(ps@[i as int]@ == x);
                proof {
                    assert(m.take(i + 1) =~= pre + seq![x]);
                    lemma_polygon_rings_concat(pre, seq![x]);
                }
                match push_polygon(&mut out, &ps[i], c) {
                    Some(c2) => {
                        proof {
                            let ra = polygon_rings(pre);
                            let rb = polygon_rings(seq![x]);
                            lemma_rings_cmds_concat(ra, rb, origin);
                            assert(out@ =~= rings_cmds(polygon_rings(m.take(i + 1)), origin));
                            assert forall|j: int| 0 <= j < polygon_rings(m.take(i + 1)).len() implies ring_writable(#[trigger] polygon_rings(m.take(i + 1))[j]) by {
                                if j < ra.len() {
                                    assert(polygon_rings(m.take(i + 1))[j] == ra[j]);
                                } else {
                                    assert(polygon_rings(m.take(i + 1))[j] == rb[j - ra.len()]);
                                }
                            }
                            if rb.len() > 0 {
                                assert((ra + rb).last() == rb.last());
                            }
                        }
                        c = c2;
                    },
                    None => {
                        proof {
                            let ra = polygon_rings(pre);
                            let rb = polygon_rings(seq![x]);
                            lemma_polygon_rings_concat(m.take(i + 1), m.skip(i + 1));
                            assert(m.take(i + 1) + m.skip(i + 1) =~= m);
                            let j = choose|j: int| 0 <= j < rb.len() && !ring_writable(#[trigger] rb[j]);
                            assert(polygon_rings(m.take(i + 1)) == ra + rb);
                            assert(polygon_rings(m) == (ra + rb) + polygon_rings(m.skip(i + 1)));
                            assert(polygon_rings(m)[ra.len() + j] == rb[j]);
                            assert(!ring_writable(polygon_rings(m)[ra.len() + j]));
                        }
                        return Err(MvtError::InvalidGeometry);
                    },
                }
                i = i + 1;
            }
            assert(m.take(i as int) =~= m);
            Ok((GeomType::Polygon, out))
        },
    }
}

} // verus!
