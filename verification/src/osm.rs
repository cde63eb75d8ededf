//! Assembly of the comparison dataset from raw map elements: nodes carrying
//! positions, ways carrying node references, and relation members. Fetching
//! and decoding the raw elements is the caller's business; this module turns
//! them into polylines.

use vstd::prelude::*;

use crate::geom::{valid_point, valid_points, Point, Polyline};

verus! {

/// Progress events reported while a relation's ways are fetched.
pub enum FetchProgress {
    SubRelationsFound(usize),
    SubRelationFetched(u64),
}

/// A node of the raw dataset: an id and its position.
#[derive(Clone, Copy, Debug, PartialEq, Eq, Structural)]
pub struct OsmNode {
    pub id: u64,
    pub point: Point,
}

/// A way of the raw dataset: an ordered list of node ids.
pub struct OsmWay {
    pub node_refs: Vec<u64>,
}

/// One member of a relation: the kind of element it points at and its id.
pub struct RelationMember {
    pub member_type: String,
    pub member_ref: u64,
}

/// The position of the last node with the given id, as a map built by
/// inserting the nodes in order would hold it.
pub open spec fn node_lookup(nodes: Seq<OsmNode>, id: u64) -> Option<Point>
    decreases nodes.len(),
{
    if nodes.len() == 0 {
        None
    } else if nodes.last().id == id {
        Some(nodes.last().point)
    } else {
        node_lookup(nodes.drop_last(), id)
    }
}

/// The positions of the resolvable node references from index `i` on, in
/// order; references to unknown nodes are passed over.
pub open spec fn way_points_from(nodes: Seq<OsmNode>, refs: Seq<u64>, i: int) -> Seq<Point>
    decreases refs.len() - i,
{
    if i < 0 || i >= refs.len() {
        Seq::empty()
    } else {
        (match node_lookup(nodes, refs[i]) {
            Some(p) => seq![p],
            None => Seq::<Point>::empty(),
        }) + way_points_from(nodes, refs, i + 1)
    }
}

/// The polylines of the ways from index `i` on: one per way that resolves to
/// at least two positions, in input order.
pub open spec fn polylines_of(nodes: Seq<OsmNode>, ways: Seq<OsmWay>, i: int) -> Seq<Seq<Point>>
    decreases ways.len() - i,
{
    if i < 0 || i >= ways.len() {
        Seq::empty()
    } else {
        let pts = way_points_from(nodes, ways[i].node_refs@, 0);
        (if pts.len() >= 2 {
            seq![pts]
        } else {
            Seq::<Seq<Point>>::empty()
        }) + polylines_of(nodes, ways, i + 1)
    }
}

/// The ids of the members from index `i` on that point at relations.
pub open spec fn relation_refs_from(members: Seq<RelationMember>, i: int) -> Seq<u64>
    decreases members.len() - i,
{
    if i < 0 || i >= members.len() {
        Seq::empty()
    } else {
        (if members[i].member_type@ == "relation"@ {
            seq![members[i].member_ref]
        } else {
            Seq::<u64>::empty()
        }) + relation_refs_from(members, i + 1)
    }
}

/// The views of a list of polylines.
pub open spec fn polyline_views(pls: Seq<Polyline>) -> Seq<Seq<Point>> {
    pls.map_values(|pl: Polyline| pl.points@)
}

/// A looked-up position is the position of one of the nodes.
proof fn lemma_lookup_valid(nodes: Seq<OsmNode>, id: u64)
    requires
        forall|j: int| 0 <= j < nodes.len() ==> valid_point((#[trigger] nodes[j]).point),
    ensures
        node_lookup(nodes, id) is Some ==> valid_point(node_lookup(nodes, id)->Some_0),
    decreases nodes.len(),
{
    if nodes.len() > 0 && nodes.last().id != id {
        assert(forall|j: int|
            0 <= j < nodes.drop_last().len() ==> valid_point(
                (#[trigger] nodes.drop_last()[j]).point,
            ));
        lemma_lookup_valid(nodes.drop_last(), id);
    }
}

/// The position of the node with the given id, the last occurrence winning,
/// as the raw dataset's node table gives it.
pub fn lookup_node(nodes: &Vec<OsmNode>, id: u64) -> (r: Option<Point>)
    ensures
        r == node_lookup(nodes@, id),
{
    let ghost ns = nodes@;
    let mut k: usize = nodes.len();
    proof {
        assert(ns.take(k as int) =~= ns);
    }
    while k > 0
        invariant
            0 <= k <= ns.len(),
            ns == nodes@,
            node_lookup(ns, id) == node_lookup(ns.take(k as int), id),
        decreases k,
    {
        k = k - 1;
        if nodes[k].id == id {
            proof {
                assert(ns.take(k as int + 1).last() == ns[k as int]);
            }
            return Some(nodes[k].point);
        }
        proof {
            assert(ns.take(k as int + 1).last() == ns[k as int]);
            assert(ns.take(k as int + 1).drop_last() =~= ns.take(k as int));
        }
    }
    proof {
        assert(ns.take(0) =~= Seq::<OsmNode>::empty());
    }
    None
}

/// The positions of one way's resolvable node references, in order.
pub fn way_points(nodes: &Vec<OsmNode>, way: &OsmWay) -> (r: Vec<Point>)
    requires
        forall|j: int| 0 <= j < nodes@.len() ==> valid_point((#[trigger] nodes@[j]).point),
    ensures
        r@ == way_points_from(nodes@, way.node_refs@, 0),
        valid_points(r@),
{
    let ghost ns = nodes@;
    let ghost refs = way.node_refs@;
    let n: usize = way.node_refs.len();
    let mut out: Vec<Point> = Vec::new();
    let mut k: usize = 0;
    while k < n
        invariant
            0 <= k <= n,
            n == refs.len(),
            ns == nodes@,
            refs == way.node_refs@,
            forall|j: int| 0 <= j < ns.len() ==> valid_point((#[trigger] ns[j]).point),
            out@ + way_points_from(ns, refs, k as int) == way_points_from(ns, refs, 0),
            valid_points(out@),
        decreases n - k,
    {
        let looked: Option<Point> = lookup_node(nodes, way.node_refs[k]);
        proof {
            lemma_lookup_valid(ns, refs[k as int]);
        }
        match looked {
            Some(p) => {
                proof {
                    assert(out@.push(p) + way_points_from(ns, refs, k as int + 1) =~= out@ + (seq![
                        p,
                    ] + way_points_from(ns, refs, k as int + 1)));
                }
                out.push(p);
            },
            None => {
                proof {
                    assert(out@ + way_points_from(ns, refs, k as int + 1) =~= out@ + (Seq::<
                        Point,
                    >::empty() + way_points_from(ns, refs, k as int + 1)));
                }
            },
        }
        k = k + 1;
    }
    out
}

/// Assemble the comparison dataset's polylines from raw nodes and ways: each
/// way becomes the polyline of its resolvable node positions, kept only when
/// at least two positions remain, all in input order. A later node with the
/// same id replaces an earlier one.
pub fn build_polylines(nodes: &Vec<OsmNode>, ways: &Vec<OsmWay>) -> (r: Vec<Polyline>)
    requires
        forall|j: int| 0 <= j < nodes@.len() ==> valid_point((#[trigger] nodes@[j]).point),
    ensures
        polyline_views(r@) == polylines_of(nodes@, ways@, 0),
        forall|j: int| 0 <= j < r@.len() ==> (#[trigger] r@[j]).wf(),
{
    let ghost ns = nodes@;
    let ghost ws = ways@;
    let n: usize = ways.len();
    let mut out: Vec<Polyline> = Vec::new();
    let mut k: usize = 0;
    while k < n
        invariant
            0 <= k <= n,
            n == ws.len(),
            ns == nodes@,
            ws == ways@,
            forall|j: int| 0 <= j < ns.len() ==> valid_point((#[trigger] ns[j]).point),
            polyline_views(out@) + polylines_of(ns, ws, k as int) == polylines_of(ns, ws, 0),
            forall|j: int| 0 <= j < out@.len() ==> (#[trigger] out@[j]).wf(),
        decreases n - k,
    {
        let pts = way_points(nodes, &ways[k]);
        if pts.len() >= 2 {
            let ghost ptsv = pts@;
            let pl = Polyline { points: pts };
            proof {
                assert(polyline_views(out@.push(pl)) =~= polyline_views(out@).push(ptsv));
                assert(polyline_views(out@).push(ptsv) + polylines_of(ns, ws, k as int + 1)
                    =~= polyline_views(out@) + (seq![ptsv] + polylines_of(ns, ws, k as int + 1)));
            }
            out.push(pl);
        } else {
            proof {
                assert(polyline_views(out@) + polylines_of(ns, ws, k as int + 1) =~= polyline_views(
                    out@,
                ) + (Seq::<Seq<Point>>::empty() + polylines_of(ns, ws, k as int + 1)));
            }
        }
        k = k + 1;
    }
    out
}

/// The ids of the relation members that point at sub-relations, in order.
pub fn sub_relation_refs(members: &Vec<RelationMember>) -> (r: Vec<u64>)
    ensures
        r@ == relation_refs_from(members@, 0),
{
    let ghost ms = members@;
    let n: usize = members.len();
    let mut out: Vec<u64> = Vec::new();
    let relation_kind: String = String::from_str("relation");
    let mut k: usize = 0;
    while k < n
        invariant
            0 <= k <= n,
            n == ms.len(),
            ms == members@,
            relation_kind@ == "relation"@,
            out@ + relation_refs_from(ms, k as int) == relation_refs_from(ms, 0),
        decreases n - k,
    {
        if members[k].member_type == relation_kind {
            proof {
                assert(out@.push(ms[k as int].member_ref) + relation_refs_from(ms, k as int + 1)
                    =~= out@ + (seq![ms[k as int].member_ref] + relation_refs_from(
                    ms,
                    k as int + 1,
                )));
            }
            out.push(members[k].member_ref);
        } else {
            proof {
                assert(out@ + relation_refs_from(ms, k as int + 1) =~= out@ + (Seq::<u64>::empty()
                    + relation_refs_from(ms, k as int + 1)));
            }
        }
        k = k + 1;
    }
    out
}

} // verus!
