//! The shape of one reference feature's geometry as plain values: a tree
//! whose leaves are point sequences (line strings) and whose inner nodes are
//! containers (multi-line-strings, geometry collections, compound curves).
//! The input reader converts the container format's geometry objects into
//! this tree; extracting the usable polylines from it is verified here.

use vstd::prelude::*;

use crate::geom::{valid_points, Point, Polyline};
use crate::osm::polyline_views;

verus! {

/// A geometry tree. A container's children stand as a right-nested chain of
/// pairs ending in `Empty`; kinds that carry no line geometry are `Empty`.
pub enum GeomTree {
    Empty,
    Line(Vec<Point>),
    Pair(Box<GeomTree>, Box<GeomTree>),
}

impl GeomTree {
    /// Every point anywhere in the tree lies within the geographic range.
    pub open spec fn wf(&self) -> bool
        decreases self,
    {
        match self {
            GeomTree::Empty => true,
            GeomTree::Line(ps) => valid_points(ps@),
            GeomTree::Pair(a, b) => a.wf() && b.wf(),
        }
    }
}

/// The line strings of the tree that have at least two points, left to
/// right: what extracting the usable polylines must return.
pub open spec fn tree_lines(t: GeomTree) -> Seq<Seq<Point>>
    decreases t,
{
    match t {
        GeomTree::Empty => Seq::empty(),
        GeomTree::Line(ps) => if ps@.len() >= 2 {
            seq![ps@]
        } else {
            Seq::empty()
        },
        GeomTree::Pair(a, b) => tree_lines(*a) + tree_lines(*b),
    }
}

fn collect_into(t: &GeomTree, out: &mut Vec<Polyline>)
    requires
        t.wf(),
        forall|j: int| 0 <= j < old(out)@.len() ==> (#[trigger] old(out)@[j]).wf(),
    ensures
        polyline_views(final(out)@) == polyline_views(old(out)@) + tree_lines(*t),
        forall|j: int| 0 <= j < final(out)@.len() ==> (#[trigger] final(out)@[j]).wf(),
    decreases *t,
{
    match t {
        GeomTree::Empty => {
            proof {
                assert(polyline_views(out@) =~= polyline_views(out@) + tree_lines(*t));
            }
        },
        GeomTree::Line(ps) => {
            if ps.len() >= 2 {
                let n: usize = ps.len();
                let mut points: Vec<Point> = Vec::new();
                let mut k: usize = 0;
                while k < n
                    invariant
                        0 <= k <= n,
                        n == ps@.len(),
                        valid_points(ps@),
                        points@ == ps@.take(k as int),
                    decreases n - k,
                {
                    points.push(ps[k]);
                    k = k + 1;
                }
                proof {
                    assert(points@ =~= ps@);
                }
                let ghost before = out@;
                out.push(Polyline { points });
                proof {
                    assert(polyline_views(out@) =~= polyline_views(before) + tree_lines(*t));
                }
            } else {
                proof {
                    assert(polyline_views(out@) =~= polyline_views(out@) + tree_lines(*t));
                }
            }
        },
        GeomTree::Pair(a, b) => {
            let ghost before = out@;
            collect_into(a, out);
            let ghost middle = out@;
            collect_into(b, out);
            proof {
                assert((polyline_views(before) + tree_lines(**a)) + tree_lines(**b)
                    =~= polyline_views(before) + (tree_lines(**a) + tree_lines(**b)));
            }
        },
    }
}

/// Extract the usable polylines of a geometry tree: every line string with
/// at least two points, in depth-first order.
pub fn collect_linestrings(t: &GeomTree) -> (r: Vec<Polyline>)
    requires
        t.wf(),
    ensures
        polyline_views(r@) == tree_lines(*t),
        forall|j: int| 0 <= j < r@.len() ==> (#[trigger] r@[j]).wf(),
{
    let mut out: Vec<Polyline> = Vec::new();
    proof {
        assert(polyline_views(out@) =~= Seq::<Seq<Point>>::empty());
    }
    collect_into(t, &mut out);
    proof {
        assert(Seq::<Seq<Point>>::empty() + tree_lines(*t) =~= tree_lines(*t));
    }
    out
}

} // verus!
