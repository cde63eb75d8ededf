//! Great-circle distance from a point to a line segment.
//!
//! The closest point on the segment is found by planar parametric projection
//! in coordinate space (adequate for the short segments the index holds); the
//! reported distance from the query point to that closest point uses the
//! curved metric. The projection here is exact integer arithmetic, so its
//! result is itself part of the verified contract.

use vstd::arithmetic::div_mod::{lemma_div_is_ordered, lemma_div_multiples_vanish};
use vstd::arithmetic::mul::lemma_mul_inequality;
use vstd::prelude::*;

use crate::geom::{gc, gc_distance, valid_point, Point, MAX_GC_MM};

verus! {

/// Dot product of `p - a` with `b - a` in planar coordinate space.
pub open spec fn proj_num(p: Point, a: Point, b: Point) -> int {
    (p.lon - a.lon) * (b.lon - a.lon) + (p.lat - a.lat) * (b.lat - a.lat)
}

/// Squared planar length of `b - a`.
pub open spec fn proj_den(a: Point, b: Point) -> int {
    (b.lon - a.lon) * (b.lon - a.lon) + (b.lat - a.lat) * (b.lat - a.lat)
}

/// The offset along one coordinate axis of the point at parameter
/// `num / den` of a segment whose extent on that axis is `delta`:
/// `floor(num * |delta| / den)`, carrying the sign of `delta`.
pub open spec fn axis_offset(num: int, den: int, delta: int) -> int {
    if delta >= 0 {
        (num * delta) / den
    } else {
        -((num * -delta) / den)
    }
}

/// The closest point to `p` on the segment from `a` to `b` under planar
/// parametric projection, with the parameter clamped to the segment.
pub open spec fn closest_on_segment(p: Point, a: Point, b: Point) -> Point {
    let num = proj_num(p, a, b);
    let den = proj_den(a, b);
    if num <= 0 || den == 0 {
        a
    } else if num >= den {
        b
    } else {
        Point {
            lon: (a.lon + axis_offset(num, den, b.lon - a.lon)) as i64,
            lat: (a.lat + axis_offset(num, den, b.lat - a.lat)) as i64,
        }
    }
}

/// The great-circle distance, in millimeters, from `p` to the closest point
/// on the segment from `a` to `b`.
pub open spec fn pt_seg_dist(p: Point, a: Point, b: Point) -> int {
    gc(p, closest_on_segment(p, a, b))
}

/// `floor(num * m / den)` lies between 0 and `m` when `0 < num <= den`.
pub proof fn lemma_scaled_fraction_bounds(num: int, den: int, m: int)
    requires
        0 < num <= den,
        0 <= m,
    ensures
        0 <= (num * m) / den <= m,
{
    lemma_mul_inequality(num, den, m);
    lemma_div_is_ordered(num * m, den * m, den);
    lemma_div_multiples_vanish(m, den);
    assert(den * m == m * den) by (nonlinear_arith);
    assert(num * m >= 0) by (nonlinear_arith)
        requires
            num > 0 && m >= 0,
    ;
    lemma_div_is_ordered(0, num * m, den);
}

/// A product of two coordinate differences stays well within `i128`.
proof fn lemma_coord_prod_bound(x: int, y: int)
    requires
        -3_600_000_000 <= x <= 3_600_000_000,
        -3_600_000_000 <= y <= 3_600_000_000,
    ensures
        -12_960_000_000_000_000_000 <= x * y <= 12_960_000_000_000_000_000,
{
    assert(-12_960_000_000_000_000_000 <= x * y <= 12_960_000_000_000_000_000)
        by (nonlinear_arith)
        requires
            -3_600_000_000 <= x <= 3_600_000_000,
            -3_600_000_000 <= y <= 3_600_000_000,
    ;
}

/// The numerator of the projection parameter times a coordinate difference
/// stays well within `u128`.
proof fn lemma_num_prod_bound(x: int, y: int)
    requires
        0 <= x <= 25_920_000_000_000_000_000,
        0 <= y <= 3_600_000_000,
    ensures
        0 <= x * y <= 93_312_000_000_000_000_000_000_000_000,
{
    assert(0 <= x * y <= 93_312_000_000_000_000_000_000_000_000) by (nonlinear_arith)
        requires
            0 <= x <= 25_920_000_000_000_000_000,
            0 <= y <= 3_600_000_000,
    ;
}

/// The great-circle distance, in millimeters, from `p` to the closest point
/// on the segment from `a` to `b`. If `a` and `b` coincide this is the
/// distance to `a`.
pub fn point_to_segment_distance(p: &Point, a: &Point, b: &Point) -> (r: u64)
    requires
        valid_point(*p),
        valid_point(*a),
        valid_point(*b),
    ensures
        r as int == pt_seg_dist(*p, *a, *b),
        r <= MAX_GC_MM,
{
    let dlon: i64 = b.lon - a.lon;
    let dlat: i64 = b.lat - a.lat;
    let plon: i64 = p.lon - a.lon;
    let plat: i64 = p.lat - a.lat;
    proof {
        lemma_coord_prod_bound(plon as int, dlon as int);
        lemma_coord_prod_bound(plat as int, dlat as int);
        lemma_coord_prod_bound(dlon as int, dlon as int);
        lemma_coord_prod_bound(dlat as int, dlat as int);
    }
    let num: i128 = plon as i128 * dlon as i128 + plat as i128 * dlat as i128;
    let den: i128 = dlon as i128 * dlon as i128 + dlat as i128 * dlat as i128;
    assert(num == proj_num(*p, *a, *b) && den == proj_den(*a, *b));
    if num <= 0 || den == 0 {
        gc_distance(p, a)
    } else if num >= den {
        gc_distance(p, b)
    } else {
        let abs_dlon: u128 = if dlon >= 0 {
            dlon as u128
        } else {
            (-dlon) as u128
        };
        let abs_dlat: u128 = if dlat >= 0 {
            dlat as u128
        } else {
            (-dlat) as u128
        };
        proof {
            lemma_scaled_fraction_bounds(num as int, den as int, abs_dlon as int);
            lemma_scaled_fraction_bounds(num as int, den as int, abs_dlat as int);
            lemma_num_prod_bound(num as int, abs_dlon as int);
            lemma_num_prod_bound(num as int, abs_dlat as int);
        }
        let off_lon: u128 = num as u128 * abs_dlon / den as u128;
        let off_lat: u128 = num as u128 * abs_dlat / den as u128;
        let clon: i64 = if dlon >= 0 {
            a.lon + off_lon as i64
        } else {
            a.lon - off_lon as i64
        };
        let clat: i64 = if dlat >= 0 {
            a.lat + off_lat as i64
        } else {
            a.lat - off_lat as i64
        };
        let c = Point { lon: clon, lat: clat };
        assert(c == closest_on_segment(*p, *a, *b));
        gc_distance(p, &c)
    }
}

} // verus!
