//! Geometry model: the shape of a feature, with coordinates carried as IEEE-754
//! bit patterns (the library reads shapes, never coordinate values).
use vstd::prelude::*;

verus! {

/// A coordinate; `x` and `y` hold the bit patterns of the two `f64` values.
#[derive(Debug, Clone, Copy, PartialEq, Eq, Structural)]
pub struct Coord {
    pub x: u64,
    pub y: u64,
}

/// A polygon: an exterior ring and interior rings (holes).
#[derive(Debug)]
pub struct Polygon {
    pub exterior: Vec<Coord>,
    pub interiors: Vec<Vec<Coord>>,
}

/// A geometry, with the variants of a two-dimensional geometry model.
#[derive(Debug)]
pub enum Geometry {
    Point(Coord),
    Line(Coord, Coord),
    LineString(Vec<Coord>),
    Polygon(Polygon),
    MultiPoint(Vec<Coord>),
    MultiLineString(Vec<Vec<Coord>>),
    MultiPolygon(Vec<Polygon>),
    GeometryCollection(Vec<Geometry>),
    Rect(Coord, Coord),
    Triangle(Coord, Coord, Coord),
}

/// Copies a sequence of coordinates.
pub fn clone_coords(v: &Vec<Coord>) -> (r: Vec<Coord>)
    ensures
        r@ == v@,
{
    let mut out: Vec<Coord> = Vec::new();
    let mut i: usize = 0;
    while i < v.len()
        invariant
            i <= v@.len(),
            out@ == v@.take(i as int),
        decreases v@.len() - i,
    {
        out.push(v[i]);
        assert(out@ =~= v@.take(i + 1));
        i = i + 1;
    }
    assert(v@.take(v@.len() as int) =~= v@);
    out
}

/// Copies a sequence of rings.
pub fn clone_rings(v: &Vec<Vec<Coord>>) -> (r: Vec<Vec<Coord>>)
    ensures
        r@.len() == v@.len(),
        forall|i: int| 0 <= i < v@.len() ==> #[trigger] r@[i]@ == v@[i]@,
{
    let mut out: Vec<Vec<Coord>> = Vec::new();
    let mut i: usize = 0;
    while i < v.len()
        invariant
            i <= v@.len(),
            out@.len() == i,
            forall|j: int| 0 <= j < i ==> #[trigger] out@[j]@ == v@[j]@,
        decreases v@.len() - i,
    {
        out.push(clone_coords(&v[i]));
        i = i + 1;
    }
    out
}

/// Same shape: same variant and the same coordinate sequences.
pub open spec fn same_polygon(a: Polygon, b: Polygon) -> bool {
    &&& a.exterior@ == b.exterior@
    &&& a.interiors@.len() == b.interiors@.len()
    &&& forall|i: int| 0 <= i < a.interiors@.len() ==> #[trigger] a.interiors@[i]@ == b.interiors@[i]@
}

impl Polygon {
    /// Copies the polygon.
    pub fn duplicate(&self) -> (r: Polygon)
        ensures
            same_polygon(r, *self),
    {
        Polygon { exterior: clone_coords(&self.exterior), interiors: clone_rings(&self.interiors) }
    }
}

/// Mathematical view of a geometry: its variant and coordinates, the members of
/// a collection by their views.
#[verifier::ext_equal]
pub enum GeometryView {
    Point(Coord),
    Line(Coord, Coord),
    LineString(Seq<Coord>),
    Polygon(Seq<Coord>, Seq<Seq<Coord>>),
    MultiPoint(Seq<Coord>),
    MultiLineString(Seq<Seq<Coord>>),
    MultiPolygon(Seq<(Seq<Coord>, Seq<Seq<Coord>>)>),
    GeometryCollection(Seq<GeometryView>),
    Rect(Coord, Coord),
    Triangle(Coord, Coord, Coord),
}

/// The coordinate sequences of a list of rings.
pub open spec fn rings_view(rs: Seq<Vec<Coord>>) -> Seq<Seq<Coord>> {
    rs.map_values(|r: Vec<Coord>| r@)
}

/// A polygon's exterior ring and holes.
pub open spec fn polygon_view(p: Polygon) -> (Seq<Coord>, Seq<Seq<Coord>>) {
    (p.exterior@, rings_view(p.interiors@))
}

/// The polygons of a multi-polygon.
pub open spec fn polygons_view(ps: Seq<Polygon>) -> Seq<(Seq<Coord>, Seq<Seq<Coord>>)> {
    ps.map_values(|p: Polygon| polygon_view(p))
}

/// The view of a geometry.
pub open spec fn geometry_view(g: Geometry) -> GeometryView
    decreases g,
{
    match g {
        Geometry::Point(c) => GeometryView::Point(c),
        Geometry::Line(a, b) => GeometryView::Line(a, b),
        Geometry::LineString(v) => GeometryView::LineString(v@),
        Geometry::Polygon(p) => GeometryView::Polygon(p.exterior@, rings_view(p.interiors@)),
        Geometry::MultiPoint(v) => GeometryView::MultiPoint(v@),
        Geometry::MultiLineString(v) => GeometryView::MultiLineString(rings_view(v@)),
        Geometry::MultiPolygon(ps) => GeometryView::MultiPolygon(polygons_view(ps@)),
        Geometry::GeometryCollection(gs) => GeometryView::GeometryCollection(
            Seq::new(
                gs@.len(),
                |i: int|
                    if 0 <= i < gs@.len() {
                        geometry_view(gs@[i])
                    } else {
                        GeometryView::Point(Coord { x: 0, y: 0 })
                    },
            ),
        ),
        Geometry::Rect(a, b) => GeometryView::Rect(a, b),
        Geometry::Triangle(a, b, c) => GeometryView::Triangle(a, b, c),
    }
}

/// Copies a geometry: the copy has the same variant and the same coordinates,
/// members of collections included.
pub fn clone_geometry(g: &Geometry) -> (r: Geometry)
    ensures
        same_variant(r, *g),
        same_shape(r, *g),
    decreases g,
{
    match g {
        Geometry::Point(c) => {
            let r = Geometry::Point(*c);
            assert(geometry_view(r) == GeometryView::Point(*c));
            assert(geometry_view(*g) == GeometryView::Point(*c));
            r
        },
        Geometry::Line(a, b) => Geometry::Line(*a, *b),
        Geometry::LineString(v) => Geometry::LineString(clone_coords(v)),
        Geometry::Polygon(p) => {
            let q = p.duplicate();
            proof {
                assert(rings_view(q.interiors@) =~= rings_view(p.interiors@));
            }
            Geometry::Polygon(q)
        },
        Geometry::MultiPoint(v) => Geometry::MultiPoint(clone_coords(v)),
        Geometry::MultiLineString(v) => {
            let w = clone_rings(v);
            proof {
                assert(rings_view(w@) =~= rings_view(v@));
            }
            Geometry::MultiLineString(w)
        },
        Geometry::MultiPolygon(ps) => {
            let mut out: Vec<Polygon> = Vec::new();
            let mut i: usize = 0;
            while i < ps.len()
                invariant
                    i <= ps@.len(),
                    out@.len() == i,
                    forall|j: int| 0 <= j < i ==> same_polygon(#[trigger] out@[j], ps@[j]),
                decreases ps@.len() - i,
            {
                out.push(ps[i].duplicate());
                i = i + 1;
            }
            proof {
                assert forall|j: int| 0 <= j < ps@.len() implies #[trigger] polygons_view(out@)[j]
                    == polygons_view(ps@)[j] by {
                    assert(same_polygon(out@[j], ps@[j]));
                    assert(rings_view(out@[j].interiors@) =~= rings_view(ps@[j].interiors@));
                }
                assert(polygons_view(out@) =~= polygons_view(ps@));
            }
            Geometry::MultiPolygon(out)
        },
        Geometry::GeometryCollection(gs) => {
            let mut out: Vec<Geometry> = Vec::new();
            let mut i: usize = 0;
            while i < gs.len()
                invariant
                    i <= gs@.len(),
                    g is GeometryCollection,
                    g->GeometryCollection_0 == *gs,
                    out@.len() == i,
                    forall|j: int| 0 <= j < i ==> #[trigger] geometry_view(out@[j]) == geometry_view(gs@[j]),
                decreases gs@.len() - i,
            {
                proof {
                    assert(decreases_to!(*g => g->GeometryCollection_0));
                    assert(decreases_to!(g->GeometryCollection_0 => g->GeometryCollection_0[i as int]));
                }
                out.push(clone_geometry(&gs[i]));
                i = i + 1;
            }
            let ghost outs = out@;
            let r = Geometry::GeometryCollection(out);
            proof {
                let va = geometry_view(r)->GeometryCollection_0;
                let vb = geometry_view(*g)->GeometryCollection_0;
                assert(va.len() == vb.len());
                assert forall|k: int| 0 <= k < va.len() implies va[k] == vb[k] by {
                    assert(va[k] == geometry_view(outs[k]));
                    assert(vb[k] == geometry_view(gs@[k]));
                }
                assert(va =~= vb);
                assert(geometry_view(r) =~= geometry_view(*g));
            }
            r
        },
        Geometry::Rect(a, b) => Geometry::Rect(*a, *b),
        Geometry::Triangle(a, b, c) => Geometry::Triangle(*a, *b, *c),
    }
}

/// Same variant.
pub open spec fn same_variant(a: Geometry, b: Geometry) -> bool {
    match (a, b) {
        (Geometry::Point(_), Geometry::Point(_)) => true,
        (Geometry::Line(..), Geometry::Line(..)) => true,
        (Geometry::LineString(_), Geometry::LineString(_)) => true,
        (Geometry::Polygon(_), Geometry::Polygon(_)) => true,
        (Geometry::MultiPoint(_), Geometry::MultiPoint(_)) => true,
        (Geometry::MultiLineString(_), Geometry::MultiLineString(_)) => true,
        (Geometry::MultiPolygon(_), Geometry::MultiPolygon(_)) => true,
        (Geometry::GeometryCollection(_), Geometry::GeometryCollection(_)) => true,
        (Geometry::Rect(..), Geometry::Rect(..)) => true,
        (Geometry::Triangle(..), Geometry::Triangle(..)) => true,
        _ => false,
    }
}

/// Same variant and same coordinates, members of collections included.
pub open spec fn same_shape(a: Geometry, b: Geometry) -> bool {
    geometry_view(a) == geometry_view(b)
}

/// Geometry type name used in schema reports.
pub open spec fn spec_geometry_type_name(g: Geometry) -> Seq<char> {
    match g {
        Geometry::Point(_) => "Point"@,
        Geometry::MultiPoint(_) => "MultiPoint"@,
        Geometry::LineString(_) => "LineString"@,
        Geometry::MultiLineString(_) => "MultiLineString"@,
        Geometry::Polygon(_) => "Polygon"@,
        Geometry::MultiPolygon(_) => "MultiPolygon"@,
        Geometry::GeometryCollection(_) => "GeometryCollection"@,
        _ => "Unknown"@,
    }
}

/// Geometry type name used in schema reports and quality checks.
pub fn geometry_type_name(g: &Geometry) -> (r: String)
    ensures
        r@ == spec_geometry_type_name(*g),
{
    let s = match g {
        Geometry::Point(_) => "Point",
        Geometry::MultiPoint(_) => "MultiPoint",
        Geometry::LineString(_) => "LineString",
        Geometry::MultiLineString(_) => "MultiLineString",
        Geometry::Polygon(_) => "Polygon",
        Geometry::MultiPolygon(_) => "MultiPolygon",
        Geometry::GeometryCollection(_) => "GeometryCollection",
        _ => "Unknown",
    };
    proof {
        reveal_strlit("Point");
        reveal_strlit("MultiPoint");
        reveal_strlit("LineString");
        reveal_strlit("MultiLineString");
        reveal_strlit("Polygon");
        reveal_strlit("MultiPolygon");
        reveal_strlit("GeometryCollection");
        reveal_strlit("Unknown");
    }
    s.to_owned()
}

/// Geometry type name used by computed-column expressions (`$geom_type`).
pub open spec fn spec_expression_geometry_type(g: Geometry) -> Seq<char> {
    match g {
        Geometry::Point(_) => "Point"@,
        Geometry::LineString(_) => "LineString"@,
        Geometry::Polygon(_) => "Polygon"@,
        Geometry::MultiPoint(_) => "MultiPoint"@,
        Geometry::MultiLineString(_) => "MultiLineString"@,
        Geometry::MultiPolygon(_) => "MultiPolygon"@,
        _ => "Unknown"@,
    }
}

/// Geometry type name used by computed-column expressions (`$geom_type`).
pub fn expression_geometry_type(g: &Geometry) -> (r: &'static str)
    ensures
        r@ == spec_expression_geometry_type(*g),
{
    proof {
        reveal_strlit("Point");
        reveal_strlit("MultiPoint");
        reveal_strlit("LineString");
        reveal_strlit("MultiLineString");
        reveal_strlit("Polygon");
        reveal_strlit("MultiPolygon");
        reveal_strlit("Unknown");
    }
    match g {
        Geometry::Point(_) => "Point",
        Geometry::LineString(_) => "LineString",
        Geometry::Polygon(_) => "Polygon",
        Geometry::MultiPoint(_) => "MultiPoint",
        Geometry::MultiLineString(_) => "MultiLineString",
        Geometry::MultiPolygon(_) => "MultiPolygon",
        _ => "Unknown",
    }
}

/// PostGIS geometry type of a geometry.
pub open spec fn spec_geometry_pg_type(g: Geometry) -> Seq<char> {
    match g {
        Geometry::Point(_) => "POINT"@,
        Geometry::MultiPoint(_) => "MULTIPOINT"@,
        Geometry::LineString(_) => "LINESTRING"@,
        Geometry::MultiLineString(_) => "MULTILINESTRING"@,
        Geometry::Polygon(_) => "POLYGON"@,
        Geometry::MultiPolygon(_) => "MULTIPOLYGON"@,
        _ => "GEOMETRY"@,
    }
}

/// PostGIS geometry type of a geometry.
pub fn geometry_pg_type(g: &Geometry) -> (r: &'static str)
    ensures
        r@ == spec_geometry_pg_type(*g),
{
    proof {
        reveal_strlit("POINT");
        reveal_strlit("MULTIPOINT");
        reveal_strlit("LINESTRING");
        reveal_strlit("MULTILINESTRING");
        reveal_strlit("POLYGON");
        reveal_strlit("MULTIPOLYGON");
        reveal_strlit("GEOMETRY");
    }
    match g {
        Geometry::Point(_) => "POINT",
        Geometry::MultiPoint(_) => "MULTIPOINT",
        Geometry::LineString(_) => "LINESTRING",
        Geometry::MultiLineString(_) => "MULTILINESTRING",
        Geometry::Polygon(_) => "POLYGON",
        Geometry::MultiPolygon(_) => "MULTIPOLYGON",
        _ => "GEOMETRY",
    }
}

/// A geometry with no vertices: an empty line string, a polygon with an empty
/// exterior ring, or an empty multi-geometry. Points, lines, rectangles, triangles
/// and collections are never empty.
pub open spec fn spec_is_empty_geometry(g: Geometry) -> bool {
    match g {
        Geometry::LineString(ls) => ls@.len() == 0,
        Geometry::Polygon(p) => p.exterior@.len() == 0,
        Geometry::MultiPoint(mp) => mp@.len() == 0,
        Geometry::MultiLineString(mls) => mls@.len() == 0,
        Geometry::MultiPolygon(mp) => mp@.len() == 0,
        _ => false,
    }
}

/// Whether a geometry has no vertices (see `spec_is_empty_geometry`).
pub fn is_empty_geometry(g: &Geometry) -> (r: bool)
    ensures
        r == spec_is_empty_geometry(*g),
{
    match g {
        Geometry::LineString(ls) => ls.len() == 0,
        Geometry::Polygon(p) => p.exterior.len() == 0,
        Geometry::MultiPoint(mp) => mp.len() == 0,
        Geometry::MultiLineString(mls) => mls.len() == 0,
        Geometry::MultiPolygon(mp) => mp.len() == 0,
        _ => false,
    }
}

/// Total length of a sequence of rings.
pub open spec fn rings_len(rs: Seq<Vec<Coord>>) -> int
    decreases rs.len(),
{
    if rs.len() == 0 {
        0
    } else {
        rings_len(rs.drop_last()) + rs.last()@.len()
    }
}

/// Vertex count of a polygon: exterior plus interior rings.
pub open spec fn polygon_vertices(p: Polygon) -> int {
    p.exterior@.len() + rings_len(p.interiors@)
}

/// Total vertex count of a sequence of polygons.
pub open spec fn polygons_vertices(ps: Seq<Polygon>) -> int
    decreases ps.len(),
{
    if ps.len() == 0 {
        0
    } else {
        polygons_vertices(ps.drop_last()) + polygon_vertices(ps.last())
    }
}

/// Number of vertices of a geometry, as `$num_vertices` reports it; rectangles,
/// triangles, lines and collections count zero.
pub open spec fn spec_vertex_count(g: Geometry) -> int {
    match g {
        Geometry::Point(_) => 1,
        Geometry::LineString(ls) => ls@.len() as int,
        Geometry::Polygon(p) => polygon_vertices(p),
        Geometry::MultiPoint(mp) => mp@.len() as int,
        Geometry::MultiLineString(mls) => rings_len(mls@),
        Geometry::MultiPolygon(mp) => polygons_vertices(mp@),
        _ => 0,
    }
}

proof fn lemma_rings_len_nonneg(rs: Seq<Vec<Coord>>)
    ensures
        rings_len(rs) >= 0,
    decreases rs.len(),
{
    if rs.len() > 0 {
        lemma_rings_len_nonneg(rs.drop_last());
    }
}

proof fn lemma_rings_len_mono(rs: Seq<Vec<Coord>>, k: int)
    requires
        0 <= k <= rs.len(),
    ensures
        rings_len(rs.take(k)) <= rings_len(rs),
    decreases rs.len() - k,
{
    if k < rs.len() {
        assert(rs.drop_last().take(k) =~= rs.take(k));
        lemma_rings_len_mono(rs.drop_last(), k);
    } else {
        assert(rs.take(k) =~= rs);
    }
}

proof fn lemma_polygons_nonneg(ps: Seq<Polygon>)
    ensures
        polygons_vertices(ps) >= 0,
    decreases ps.len(),
{
    if ps.len() > 0 {
        lemma_polygons_nonneg(ps.drop_last());
        lemma_rings_len_nonneg(ps.last().interiors@);
    }
}

proof fn lemma_polygons_mono(ps: Seq<Polygon>, k: int)
    requires
        0 <= k <= ps.len(),
    ensures
        polygons_vertices(ps.take(k)) <= polygons_vertices(ps),
    decreases ps.len() - k,
{
    lemma_rings_len_nonneg(ps.last().interiors@);
    if k < ps.len() {
        assert(ps.drop_last().take(k) =~= ps.take(k));
        lemma_polygons_mono(ps.drop_last(), k);
    } else {
        assert(ps.take(k) =~= ps);
    }
}

/// Sum of ring lengths.
fn count_rings(rs: &Vec<Vec<Coord>>) -> (r: i64)
    requires
        rings_len(rs@) <= i64::MAX,
    ensures
        r == rings_len(rs@),
{
    let mut total: i64 = 0;
    let mut i: usize = 0;
    while i < rs.len()
        invariant
            i <= rs@.len(),
            rings_len(rs@) <= i64::MAX,
            total == rings_len(rs@.take(i as int)),
        decreases rs@.len() - i,
    {
        proof {
            assert(rs@.take(i + 1).drop_last() =~= rs@.take(i as int));
            lemma_rings_len_mono(rs@, i + 1);
            lemma_rings_len_nonneg(rs@.take(i as int));
        }
        total = total + rs[i].len() as i64;
        i = i + 1;
    }
    proof {
        assert(rs@.take(rs@.len() as int) =~= rs@);
    }
    total
}

/// Vertex count of a polygon.
fn count_polygon(p: &Polygon) -> (r: i64)
    requires
        polygon_vertices(*p) <= i64::MAX,
    ensures
        r == polygon_vertices(*p),
{
    proof {
        lemma_rings_len_nonneg(p.interiors@);
    }
    let inner = count_rings(&p.interiors);
    p.exterior.len() as i64 + inner
}

/// Number of vertices of a geometry (see `spec_vertex_count`).
pub fn count_vertices(g: &Geometry) -> (r: i64)
    requires
        spec_vertex_count(*g) <= i64::MAX,
    ensures
        r == spec_vertex_count(*g),
{
    match g {
        Geometry::Point(_) => 1,
        Geometry::LineString(ls) => ls.len() as i64,
        Geometry::Polygon(p) => count_polygon(p),
        Geometry::MultiPoint(mp) => mp.len() as i64,
        Geometry::MultiLineString(mls) => count_rings(mls),
        Geometry::MultiPolygon(mp) => {
            let mut total: i64 = 0;
            let mut i: usize = 0;
            while i < mp.len()
                invariant
                    i <= mp@.len(),
                    polygons_vertices(mp@) <= i64::MAX,
                    total == polygons_vertices(mp@.take(i as int)),
                decreases mp@.len() - i,
            {
                proof {
                    assert(mp@.take(i + 1).drop_last() =~= mp@.take(i as int));
                    lemma_polygons_mono(mp@, i + 1);
                    lemma_polygons_mono(mp@.take(i + 1), i as int);
                    assert(mp@.take(i + 1).take(i as int) =~= mp@.take(i as int));
                    lemma_rings_len_nonneg(mp@[i as int].interiors@);
                    lemma_polygons_nonneg(mp@.take(i as int));
                    assert(mp@.take(i + 1).last() == mp@[i as int]);
                }
                total = total + count_polygon(&mp[i]);
                i = i + 1;
            }
            proof {
                assert(mp@.take(mp@.len() as int) =~= mp@);
            }
            total
        },
        _ => 0,
    }
}

} // verus!
