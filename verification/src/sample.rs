//! Arc-length sampling of a polyline.
//!
//! `sample_along` walks a polyline and emits points at a fixed great-circle
//! interval, carrying the leftover distance from one segment into the next,
//! and always includes the first and last vertices.

use vstd::prelude::*;

use crate::dist::{axis_offset, lemma_scaled_fraction_bounds};
use crate::geom::{
    gc, gc_distance, polyline_len, polyline_len_from, valid_point, valid_points, Point, Polyline,
    MAX_GC_MM,
};

verus! {

/// The point at great-circle offset `d` of the segment from `a` to `b` whose
/// great-circle length is `len`, by linear interpolation in coordinate space.
pub open spec fn interp_point(a: Point, b: Point, d: int, len: int) -> Point {
    Point {
        lon: (a.lon + axis_offset(d, len, b.lon - a.lon)) as i64,
        lat: (a.lat + axis_offset(d, len, b.lat - a.lat)) as i64,
    }
}

/// The samples emitted within one segment of length `len`, starting with the
/// one at offset `offset` and stepping by `interval`, while the offset stays
/// on the segment.
pub open spec fn seg_samples(a: Point, b: Point, len: int, offset: int, interval: int) -> Seq<Point>
    decreases len - offset + interval,
{
    if interval < 1 || offset < 0 || offset > len {
        Seq::empty()
    } else {
        seq![interp_point(a, b, offset, len)] + seg_samples(a, b, len, offset + interval, interval)
    }
}

/// The first sample offset past the end of a segment of length `len`, when
/// sampling starts at `offset` and steps by `interval`.
pub open spec fn seg_final_offset(len: int, offset: int, interval: int) -> int
    decreases len - offset + interval,
{
    if interval < 1 || offset < 0 || offset > len {
        offset
    } else {
        seg_final_offset(len, offset + interval, interval)
    }
}

/// All samples emitted from vertex `i` of the polyline on, entering that
/// vertex with `offset` millimeters owed until the next sample.
/// Zero-length segments are passed over without touching the owed distance.
pub open spec fn walk_samples(ps: Seq<Point>, i: int, offset: int, interval: int) -> Seq<Point>
    decreases ps.len() - i,
{
    if i < 0 || i + 1 >= ps.len() {
        Seq::empty()
    } else {
        let len = gc(ps[i], ps[i + 1]);
        if len <= 0 {
            walk_samples(ps, i + 1, offset, interval)
        } else {
            seg_samples(ps[i], ps[i + 1], len, offset, interval) + walk_samples(
                ps,
                i + 1,
                seg_final_offset(len, offset, interval) - len,
                interval,
            )
        }
    }
}

/// What sampling a polyline at a given interval returns: the first vertex,
/// the interior samples of the walk, and the last vertex exactly once.
/// A polyline of fewer than two points is returned unchanged.
pub open spec fn sample_spec(ps: Seq<Point>, interval: int) -> Seq<Point> {
    if ps.len() < 2 {
        ps
    } else {
        let body = seq![ps[0]] + walk_samples(ps, 0, interval, interval);
        if body.last() == ps.last() {
            body
        } else {
            body.push(ps.last())
        }
    }
}

/// An offset times a coordinate difference stays well within `u128`.
proof fn lemma_interp_prod_bound(x: int, y: int)
    requires
        0 <= x <= 21_000_000_000,
        0 <= y <= 3_600_000_000,
    ensures
        0 <= x * y <= 75_600_000_000_000_000_000,
{
    assert(0 <= x * y <= 75_600_000_000_000_000_000) by (nonlinear_arith)
        requires
            0 <= x <= 21_000_000_000,
            0 <= y <= 3_600_000_000,
    ;
}

/// The point at great-circle offset `d` along the segment from `a` to `b`
/// of great-circle length `len`.
pub fn segment_point(a: &Point, b: &Point, d: u64, len: u64) -> (r: Point)
    requires
        valid_point(*a),
        valid_point(*b),
        0 < d <= len,
        len <= MAX_GC_MM,
    ensures
        r == interp_point(*a, *b, d as int, len as int),
        valid_point(r),
{
    let dlon: i64 = b.lon - a.lon;
    let dlat: i64 = b.lat - a.lat;
    let abs_dlon: u128 = if dlon >= 0 {
        dlon as u128
    } else {
        (-dlon) as u128
    };
    let abs_dlat: u128 = if dlat >= 0 {
        dlat as u128
    } else {
        (-dlat) as u128
    };
    proof {
        lemma_scaled_fraction_bounds(d as int, len as int, abs_dlon as int);
        lemma_scaled_fraction_bounds(d as int, len as int, abs_dlat as int);
        lemma_interp_prod_bound(d as int, abs_dlon as int);
        lemma_interp_prod_bound(d as int, abs_dlat as int);
    }
    let off_lon: u128 = d as u128 * abs_dlon / len as u128;
    let off_lat: u128 = d as u128 * abs_dlat / len as u128;
    let clon: i64 = if dlon >= 0 {
        a.lon + off_lon as i64
    } else {
        a.lon - off_lon as i64
    };
    let clat: i64 = if dlat >= 0 {
        a.lat + off_lat as i64
    } else {
        a.lat - off_lat as i64
    };
    Point { lon: clon, lat: clat }
}

/// Sample points along a polyline at a fixed great-circle interval given in
/// millimeters. The first and last vertices are always included; interior
/// samples fall every `interval_mm` millimeters of accumulated arc length.
/// A polyline of fewer than two points is returned unchanged.
pub fn sample_along(ls: &Polyline, interval_mm: u64) -> (r: Vec<Point>)
    requires
        ls.wf(),
        1 <= interval_mm,
        interval_mm + MAX_GC_MM <= u64::MAX,
    ensures
        r@ == sample_spec(ls.points@, interval_mm as int),
        valid_points(r@),
        ls.points@.len() >= 2 ==> r@.len() >= 1 && r@[0] == ls.points@[0] && r@.last()
            == ls.points@.last(),
        ls.points@.len() < 2 ==> r@ == ls.points@,
{
    let ghost ps = ls.points@;
    let ghost itv = interval_mm as int;
    let n: usize = ls.points.len();
    if n < 2 {
        let mut out: Vec<Point> = Vec::new();
        let mut k: usize = 0;
        while k < n
            invariant
                0 <= k <= n,
                n == ps.len(),
                ps == ls.points@,
                valid_points(ps),
                out@ == ps.take(k as int),
            decreases n - k,
        {
            out.push(ls.points[k]);
            k = k + 1;
        }
        proof {
            assert(ps.take(n as int) =~= ps);
            assert(valid_points(out@));
        }
        return out;
    }
    let mut samples: Vec<Point> = Vec::new();
    samples.push(ls.points[0]);
    let mut remaining: u64 = interval_mm;
    let mut i: usize = 0;
    proof {
        assert(samples@ + walk_samples(ps, 0, itv, itv) =~= seq![ps[0]] + walk_samples(
            ps,
            0,
            itv,
            itv,
        ));
    }
    while i + 1 < n
        invariant
            0 <= i < n,
            2 <= n == ps.len(),
            ps == ls.points@,
            valid_points(ps),
            1 <= itv == interval_mm as int,
            interval_mm + MAX_GC_MM <= u64::MAX,
            1 <= remaining <= interval_mm,
            samples@.len() >= 1,
            samples@[0] == ps[0],
            valid_points(samples@),
            samples@ + walk_samples(ps, i as int, remaining as int, itv) == seq![ps[0]]
                + walk_samples(ps, 0, itv, itv),
        decreases n - i,
    {
        assert(valid_point(ps[i as int]) && valid_point(ps[i as int + 1]));
        let a = ls.points[i];
        let b = ls.points[i + 1];
        let seg_len: u64 = gc_distance(&a, &b);
        if seg_len == 0 {
            proof {
                assert(walk_samples(ps, i as int, remaining as int, itv) == walk_samples(
                    ps,
                    i as int + 1,
                    remaining as int,
                    itv,
                ));
            }
            i = i + 1;
            continue ;
        }
        let ghost entry_walk = walk_samples(ps, i as int, remaining as int, itv);
        let mut offset: u64 = remaining;
        proof {
            assert(entry_walk == seg_samples(a, b, seg_len as int, offset as int, itv)
                + walk_samples(
                ps,
                i as int + 1,
                seg_final_offset(seg_len as int, offset as int, itv) - seg_len as int,
                itv,
            ));
        }
        while offset <= seg_len
            invariant
                valid_point(a),
                valid_point(b),
                a == ps[i as int],
                b == ps[i as int + 1],
                0 <= i < n - 1,
                2 <= n == ps.len(),
                ps == ls.points@,
                valid_points(ps),
                1 <= itv == interval_mm as int,
                interval_mm + MAX_GC_MM <= u64::MAX,
                0 < seg_len as int == gc(ps[i as int], ps[i as int + 1]),
                seg_len <= MAX_GC_MM,
                1 <= offset,
                offset as int <= seg_len as int + itv,
                samples@.len() >= 1,
                samples@[0] == ps[0],
                valid_points(samples@),
                samples@ + (seg_samples(a, b, seg_len as int, offset as int, itv) + walk_samples(
                    ps,
                    i as int + 1,
                    seg_final_offset(seg_len as int, offset as int, itv) - seg_len as int,
                    itv,
                )) == seq![ps[0]] + walk_samples(ps, 0, itv, itv),
            decreases seg_len + interval_mm - offset,
        {
            let c = segment_point(&a, &b, offset, seg_len);
            proof {
                assert(seg_samples(a, b, seg_len as int, offset as int, itv) == seq![c]
                    + seg_samples(a, b, seg_len as int, offset as int + itv, itv));
                assert(seg_final_offset(seg_len as int, offset as int, itv) == seg_final_offset(
                    seg_len as int,
                    offset as int + itv,
                    itv,
                ));
                assert((samples@.push(c)) + (seg_samples(
                    a,
                    b,
                    seg_len as int,
                    offset as int + itv,
                    itv,
                ) + walk_samples(
                    ps,
                    i as int + 1,
                    seg_final_offset(seg_len as int, offset as int + itv, itv) - seg_len as int,
                    itv,
                )) =~= samples@ + (seg_samples(a, b, seg_len as int, offset as int, itv)
                    + walk_samples(
                    ps,
                    i as int + 1,
                    seg_final_offset(seg_len as int, offset as int, itv) - seg_len as int,
                    itv,
                )));
            }
            samples.push(c);
            offset = offset + interval_mm;
        }
        proof {
            assert(seg_samples(a, b, seg_len as int, offset as int, itv) == Seq::<Point>::empty());
            assert(seg_final_offset(seg_len as int, offset as int, itv) == offset as int);
            assert(samples@ + walk_samples(ps, i as int + 1, offset as int - seg_len as int, itv)
                =~= samples@ + (seg_samples(a, b, seg_len as int, offset as int, itv)
                + walk_samples(
                ps,
                i as int + 1,
                seg_final_offset(seg_len as int, offset as int, itv) - seg_len as int,
                itv,
            )));
        }
        remaining = offset - seg_len;
        i = i + 1;
    }
    proof {
        assert(walk_samples(ps, i as int, remaining as int, itv) == Seq::<Point>::empty());
        assert(samples@ =~= samples@ + walk_samples(ps, i as int, remaining as int, itv));
        assert(samples@ == seq![ps[0]] + walk_samples(ps, 0, itv, itv));
        assert(samples@[0] == ps[0]);
    }
    let last = ls.points[n - 1];
    let m: usize = samples.len();
    if !(samples[m - 1] == last) {
        proof {
            assert(samples@.last() != ps.last());
        }
        samples.push(last);
    }
    samples
}


/// How far one segment advances the owed offset: by one interval per emitted
/// sample, ending strictly past the segment but at most one interval past.
proof fn lemma_seg_count(a: Point, b: Point, len: int, offset: int, interval: int)
    requires
        1 <= interval,
        0 <= offset,
    ensures
        seg_final_offset(len, offset, interval) == offset + interval * seg_samples(
            a,
            b,
            len,
            offset,
            interval,
        ).len(),
        offset > len ==> seg_final_offset(len, offset, interval) == offset,
        offset <= len ==> len < seg_final_offset(len, offset, interval) <= len + interval,
    decreases len - offset + interval,
{
    if offset > len {
        assert(interval * seg_samples(a, b, len, offset, interval).len() == 0) by (nonlinear_arith)
            requires
                seg_samples(a, b, len, offset, interval).len() == 0,
        ;
    } else {
        lemma_seg_count(a, b, len, offset + interval, interval);
        let restc = seg_samples(a, b, len, offset + interval, interval).len() as int;
        assert(seg_samples(a, b, len, offset, interval).len() as int == 1 + restc);
        assert(interval * (1 + restc) == interval + interval * restc) by (nonlinear_arith);
    }
}

/// The distance still owed toward the next sample once the walk has passed
/// the whole polyline.
pub open spec fn walk_leftover(ps: Seq<Point>, i: int, offset: int, interval: int) -> int
    decreases ps.len() - i,
{
    if i < 0 || i + 1 >= ps.len() {
        offset
    } else {
        let len = gc(ps[i], ps[i + 1]);
        if len <= 0 {
            walk_leftover(ps, i + 1, offset, interval)
        } else {
            walk_leftover(ps, i + 1, seg_final_offset(len, offset, interval) - len, interval)
        }
    }
}

/// Across the whole walk the owed offset accounts for every emitted sample:
/// the entry offset plus one interval per sample equals the polyline's length
/// plus a leftover of between one and one whole interval.
proof fn lemma_walk_count(ps: Seq<Point>, i: int, offset: int, interval: int)
    requires
        1 <= interval,
        1 <= offset <= interval,
        0 <= i,
        forall|k: int| 0 <= k < ps.len() - 1 ==> gc(ps[k], #[trigger] ps[k + 1]) >= 0,
    ensures
        1 <= walk_leftover(ps, i, offset, interval) <= interval,
        offset + interval * walk_samples(ps, i, offset, interval).len() == polyline_len_from(ps, i)
            + walk_leftover(ps, i, offset, interval),
    decreases ps.len() - i,
{
    if i + 1 >= ps.len() {
        assert(interval * walk_samples(ps, i, offset, interval).len() == 0) by (nonlinear_arith)
            requires
                walk_samples(ps, i, offset, interval).len() == 0,
        ;
    } else {
        let len = gc(ps[i], ps[i + 1]);
        assert(len >= 0);
        if len <= 0 {
            lemma_walk_count(ps, i + 1, offset, interval);
        } else {
            lemma_seg_count(ps[i], ps[i + 1], len, offset, interval);
            let fin = seg_final_offset(len, offset, interval);
            let segc = seg_samples(ps[i], ps[i + 1], len, offset, interval).len() as int;
            assert(1 <= fin - len <= interval);
            lemma_walk_count(ps, i + 1, fin - len, interval);
            let restc = walk_samples(ps, i + 1, fin - len, interval).len() as int;
            assert(walk_samples(ps, i, offset, interval).len() as int == segc + restc);
            assert(interval * (segc + restc) == interval * segc + interval * restc)
                by (nonlinear_arith);
        }
    }
}

/// An interval at most half the polyline's great-circle length yields more
/// than two samples: besides the two end vertices at least one interior
/// sample is emitted.
pub proof fn lemma_sample_count(ps: Seq<Point>, interval: int)
    requires
        ps.len() >= 2,
        1 <= interval,
        2 * interval <= polyline_len(ps),
        forall|k: int| 0 <= k < ps.len() - 1 ==> gc(ps[k], #[trigger] ps[k + 1]) >= 0,
    ensures
        sample_spec(ps, interval).len() > 2,
{
    lemma_walk_count(ps, 0, interval, interval);
    let wlen = walk_samples(ps, 0, interval, interval).len() as int;
    assert(interval + interval * wlen >= 2 * interval + 1);
    if wlen < 2 {
        assert(interval * wlen <= interval * 1) by (nonlinear_arith)
            requires
                wlen <= 1 && interval >= 1,
        ;
        assert(false);
    }
    let body = seq![ps[0]] + walk_samples(ps, 0, interval, interval);
    assert(body.len() as int == 1 + wlen);
    assert(sample_spec(ps, interval).len() >= body.len());
}

} // verus!

