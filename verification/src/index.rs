//! A bulk-loaded index over line segments answering nearest-segment queries
//! under the point-to-segment great-circle distance.
//!
//! The index holds the flat list of segments exploded from the input
//! polylines and answers a query by an exact scan for the minimum distance.
//! An empty index answers every query with no segment, and a distance of
//! `u64::MAX` stands for "no segment anywhere near".

use vstd::prelude::*;

use crate::dist::{point_to_segment_distance, pt_seg_dist};
use crate::geom::{valid_point, valid_points, Point, Polyline, MAX_GC_MM};

verus! {

/// A single line segment stored in the index.
#[derive(Clone, Copy, Debug, PartialEq, Eq, Structural)]
pub struct IndexedSegment {
    pub start: Point,
    pub end: Point,
}

impl IndexedSegment {
    pub open spec fn wf(&self) -> bool {
        valid_point(self.start) && valid_point(self.end)
    }

    pub fn new(start: Point, end: Point) -> (r: IndexedSegment)
        ensures
            r == (IndexedSegment { start, end }),
    {
        IndexedSegment { start, end }
    }
}

/// The great-circle distance from `p` to the closest point of `s`.
pub open spec fn seg_dist(p: Point, s: IndexedSegment) -> int {
    pt_seg_dist(p, s.start, s.end)
}

/// The least distance from `p` to any of the segments from index `i` on,
/// or `u64::MAX` where none is left.
pub open spec fn min_dist_from(segs: Seq<IndexedSegment>, p: Point, i: int) -> int
    decreases segs.len() - i,
{
    if i < 0 || i >= segs.len() {
        u64::MAX as int
    } else {
        let d = seg_dist(p, segs[i]);
        let rest = min_dist_from(segs, p, i + 1);
        if d <= rest {
            d
        } else {
            rest
        }
    }
}

/// The least distance from `p` to any segment of the index, `u64::MAX` for an
/// empty index.
pub open spec fn index_dist(segs: Seq<IndexedSegment>, p: Point) -> int {
    min_dist_from(segs, p, 0)
}

/// The segments of one polyline: one per consecutive vertex pair.
pub open spec fn line_segments(ps: Seq<Point>) -> Seq<IndexedSegment> {
    if ps.len() == 0 {
        Seq::empty()
    } else {
        Seq::new((ps.len() - 1) as nat, |i: int| IndexedSegment { start: ps[i], end: ps[i + 1] })
    }
}

/// The segments of the first `i` polylines, in order.
pub open spec fn segments_up_to(lines: Seq<Polyline>, i: int) -> Seq<IndexedSegment>
    decreases i,
{
    if i <= 0 {
        Seq::empty()
    } else {
        segments_up_to(lines, i - 1) + line_segments(lines[i - 1].points@)
    }
}

/// An immutable bulk-loaded collection of segments.
pub struct SpatialIndex {
    pub segments: Vec<IndexedSegment>,
}

impl SpatialIndex {
    pub open spec fn wf(&self) -> bool {
        forall|i: int|
            0 <= i < self.segments@.len() ==> (#[trigger] self.segments@[i]).wf()
    }

    /// Whether the index holds no segment at all.
    pub fn is_empty(&self) -> (r: bool)
        ensures
            r == (self.segments@.len() == 0),
    {
        self.segments.len() == 0
    }

    /// The segment of the index closest to `p` under the point-to-segment
    /// great-circle distance; no segment if and only if the index is empty.
    pub fn nearest(&self, p: &Point) -> (r: Option<IndexedSegment>)
        requires
            self.wf(),
            valid_point(*p),
        ensures
            r is None <==> self.segments@.len() == 0,
            r is Some ==> self.segments@.contains(r->Some_0) && seg_dist(*p, r->Some_0)
                == index_dist(self.segments@, *p),
    {
        let ghost segs = self.segments@;
        let n: usize = self.segments.len();
        if n == 0 {
            return None;
        }
        let mut best_idx: usize = 0;
        let mut best: u64 = u64::MAX;
        let mut i: usize = n;
        while i > 0
            invariant
                0 <= i <= n,
                n == segs.len(),
                segs == self.segments@,
                self.wf(),
                valid_point(*p),
                best as int == min_dist_from(segs, *p, i as int),
                i < n ==> i <= best_idx < n && seg_dist(*p, segs[best_idx as int]) == best as int,
                i == n ==> best == u64::MAX,
            decreases i,
        {
            i = i - 1;
            let s = &self.segments[i];
            let d: u64 = point_to_segment_distance(p, &s.start, &s.end);
            if d <= best {
                best = d;
                best_idx = i;
            }
        }
        Some(self.segments[best_idx])
    }

    /// The distance from `p` to the nearest segment of the index, in
    /// millimeters; `u64::MAX` for an empty index.
    pub fn nearest_distance(&self, p: &Point) -> (r: u64)
        requires
            self.wf(),
            valid_point(*p),
        ensures
            r as int == index_dist(self.segments@, *p),
    {
        let ghost segs = self.segments@;
        let n: usize = self.segments.len();
        let mut best: u64 = u64::MAX;
        let mut i: usize = n;
        while i > 0
            invariant
                0 <= i <= n,
                n == segs.len(),
                segs == self.segments@,
                self.wf(),
                valid_point(*p),
                best as int == min_dist_from(segs, *p, i as int),
            decreases i,
        {
            i = i - 1;
            let s = &self.segments[i];
            let d: u64 = point_to_segment_distance(p, &s.start, &s.end);
            if d <= best {
                best = d;
            }
        }
        best
    }
}

/// Build the index from the comparison dataset's polylines: each polyline is
/// exploded into its consecutive segments, all in input order.
pub fn build_index(lines: &Vec<Polyline>) -> (r: SpatialIndex)
    requires
        forall|i: int| 0 <= i < lines@.len() ==> (#[trigger] lines@[i]).wf(),
    ensures
        r.segments@ == segments_up_to(lines@, lines@.len() as int),
        r.wf(),
{
    let mut segments: Vec<IndexedSegment> = Vec::new();
    let n: usize = lines.len();
    let mut i: usize = 0;
    while i < n
        invariant
            0 <= i <= n,
            n == lines@.len(),
            forall|k: int| 0 <= k < lines@.len() ==> (#[trigger] lines@[k]).wf(),
            segments@ == segments_up_to(lines@, i as int),
            forall|k: int| 0 <= k < segments@.len() ==> (#[trigger] segments@[k]).wf(),
        decreases n - i,
    {
        let ps = &lines[i].points;
        let m: usize = ps.len();
        let ghost entry = segments@;
        let mut j: usize = 0;
        while j + 1 < m
            invariant
                (m == 0 && j == 0) || j < m,
                m == ps@.len(),
                ps@ == lines@[i as int].points@,
                0 <= i < lines@.len(),
                forall|k: int| 0 <= k < lines@.len() ==> (#[trigger] lines@[k]).wf(),
                segments@ == entry + line_segments(ps@).take(j as int),
                forall|k: int| 0 <= k < segments@.len() ==> (#[trigger] segments@[k]).wf(),
            decreases m - j,
        {
            assert(valid_point(ps@[j as int]) && valid_point(ps@[j as int + 1]));
            segments.push(IndexedSegment { start: ps[j], end: ps[j + 1] });
            assert(line_segments(ps@).take(j as int + 1) == line_segments(ps@).take(j as int).push(
                line_segments(ps@)[j as int],
            ));
            j = j + 1;
        }
        proof {
            if m == 0 {
                assert(line_segments(ps@).take(j as int) =~= line_segments(ps@));
            } else {
                assert(j as int == line_segments(ps@).len());
                assert(line_segments(ps@).take(j as int) =~= line_segments(ps@));
            }
            assert(segments@ =~= segments_up_to(lines@, i as int + 1));
        }
        i = i + 1;
    }
    SpatialIndex { segments }
}

} // verus!
