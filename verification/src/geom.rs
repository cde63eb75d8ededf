//! Geometry primitives: fixed-point geographic points, polylines, named
//! sections, and the great-circle distance metric.
//!
//! Longitude and latitude are carried in units of 1e-7 degrees; distances in
//! integer millimeters. The great-circle metric itself comes from the `geo`
//! crate through one trusted wrapper; its value on a pair of coordinates is
//! named by the uninterpreted function [`gc_dist`].

use vstd::prelude::*;

use geo::Distance;
use geo::Haversine;
use geo::Point as GeoPoint;

verus! {

/// Largest longitude magnitude, in units of 1e-7 degrees (180 degrees).
pub const MAX_LON: i64 = 1_800_000_000;
/// Largest latitude magnitude, in units of 1e-7 degrees (90 degrees).
pub const MAX_LAT: i64 = 900_000_000;
/// An upper bound on any great-circle distance in millimeters: a little above
/// pi times the mean earth radius used by the metric (about 2.002e10 mm).
pub const MAX_GC_MM: u64 = 21_000_000_000;

/// A geographic position: longitude and latitude in units of 1e-7 degrees.
#[derive(Clone, Copy, Debug, PartialEq, Eq, Structural)]
pub struct Point {
    pub lon: i64,
    pub lat: i64,
}

/// A point whose coordinates lie within the geographic range.
pub open spec fn valid_point(p: Point) -> bool {
    -MAX_LON <= p.lon <= MAX_LON && -MAX_LAT <= p.lat <= MAX_LAT
}

impl Point {
    pub fn new(lon: i64, lat: i64) -> (r: Point)
        requires
            -MAX_LON <= lon <= MAX_LON,
            -MAX_LAT <= lat <= MAX_LAT,
        ensures
            r == (Point { lon, lat }),
            valid_point(r),
    {
        Point { lon, lat }
    }
}

/// The great-circle distance, in millimeters, between the positions with
/// coordinates `(a_lon, a_lat)` and `(b_lon, b_lat)` (units of 1e-7 degrees),
/// as the `geo` crate's haversine metric reports it. Named here because its
/// value is a function of the coordinates alone and has no short closed form.
pub uninterp spec fn gc_dist(a_lon: int, a_lat: int, b_lon: int, b_lat: int) -> int;

/// The great-circle distance between two points, in millimeters.
pub open spec fn gc(a: Point, b: Point) -> int {
    gc_dist(a.lon as int, a.lat as int, b.lon as int, b.lat as int)
}

/// Relies on `geo::Haversine.distance`: the haversine distance in meters
/// between two longitude/latitude points, a pure function of the two
/// coordinate pairs, zero for identical points, and at most pi times the
/// mean earth radius (6_371_008.7714 m).
#[verifier::external_body]
pub fn gc_distance(a: &Point, b: &Point) -> (r: u64)
    requires
        valid_point(*a),
        valid_point(*b),
    ensures
        r as int == gc_dist(a.lon as int, a.lat as int, b.lon as int, b.lat as int),
        a == b ==> r == 0,
        r <= MAX_GC_MM,
{
    let sc: GeoPoint = GeoPoint::new(10_000_000_i32.into(), 1000_i32.into());
    let pa: GeoPoint = GeoPoint::new((a.lon as i32).into(), (a.lat as i32).into());
    let pb: GeoPoint = GeoPoint::new((b.lon as i32).into(), (b.lat as i32).into());
    let qa: GeoPoint = GeoPoint::new(pa.x() / sc.x(), pa.y() / sc.x());
    let qb: GeoPoint = GeoPoint::new(pb.x() / sc.x(), pb.y() / sc.x());
    (Haversine.distance(qa, qb) * sc.y()).round() as u64
}

/// An ordered sequence of points.
pub struct Polyline {
    pub points: Vec<Point>,
}

/// Every point of the sequence lies within the geographic range.
pub open spec fn valid_points(ps: Seq<Point>) -> bool {
    forall|i: int| 0 <= i < ps.len() ==> valid_point(#[trigger] ps[i])
}

/// The great-circle length, in millimeters, of the part of the polyline from
/// vertex `i` on: the sum of the distances between consecutive vertices.
pub open spec fn polyline_len_from(ps: Seq<Point>, i: int) -> int
    decreases ps.len() - i,
{
    if i < 0 || i + 1 >= ps.len() {
        0
    } else {
        gc(ps[i], ps[i + 1]) + polyline_len_from(ps, i + 1)
    }
}

/// The great-circle length of a polyline, in millimeters.
pub open spec fn polyline_len(ps: Seq<Point>) -> int {
    polyline_len_from(ps, 0)
}

impl Polyline {
    pub open spec fn wf(&self) -> bool {
        valid_points(self.points@)
    }

    pub fn new(points: Vec<Point>) -> (r: Polyline)
        ensures
            r.points == points,
    {
        Polyline { points }
    }

    /// The great-circle length of this polyline in millimeters.
    pub fn length_mm(&self) -> (r: u128)
        requires
            self.wf(),
        ensures
            r as int == polyline_len(self.points@),
    {
        points_length_mm(&self.points)
    }
}

/// The great-circle length, in millimeters, of the polyline through the given
/// points, in order.
pub fn points_length_mm(points: &Vec<Point>) -> (r: u128)
    requires
        valid_points(points@),
    ensures
        r as int == polyline_len(points@),
        r <= points@.len() * MAX_GC_MM,
{
    let ghost ps = points@;
    let n: usize = points.len();
    let mut total: u128 = 0;
    let mut i: usize = 0;
    while i + 1 < n
        invariant
            (n == 0 && i == 0) || i < n,
            n == ps.len(),
            ps == points@,
            valid_points(ps),
            total as int + polyline_len_from(ps, i as int) == polyline_len(ps),
            total <= i * MAX_GC_MM,
        decreases n - i,
    {
        assert(valid_point(ps[i as int]) && valid_point(ps[i as int + 1]));
        let d: u64 = gc_distance(&points[i], &points[i + 1]);
        assert(total + d <= (i + 1) * (MAX_GC_MM as int) <= u128::MAX) by (nonlinear_arith)
            requires
                total <= i * MAX_GC_MM,
                d <= MAX_GC_MM,
                MAX_GC_MM == 21_000_000_000u64,
                0 <= i < 0x1_0000_0000_0000_0000,
        ;
        total = total + d as u128;
        i = i + 1;
    }
    total
}

/// A named stretch of the reference trail: one section with a possibly
/// multi-part geometry.
pub struct PctaSection {
    pub section_name: String,
    pub geometry: Vec<Polyline>,
}

impl PctaSection {
    pub open spec fn wf(&self) -> bool {
        forall|i: int| 0 <= i < self.geometry@.len() ==> (#[trigger] self.geometry@[i]).wf()
    }

    pub fn new(section_name: String, geometry: Vec<Polyline>) -> (r: PctaSection)
        ensures
            r.section_name == section_name,
            r.geometry == geometry,
    {
        PctaSection { section_name, geometry }
    }
}

} // verus!
