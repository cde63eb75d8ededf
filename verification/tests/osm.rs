use pct_diff::geom::Point;
use pct_diff::osm::{
    build_polylines, lookup_node, sub_relation_refs, OsmNode, OsmWay, RelationMember,
};

const DEG: i64 = 10_000_000;

fn node(id: u64, lon: i64, lat: i64) -> OsmNode {
    OsmNode { id, point: Point::new(lon, lat) }
}

#[test]
fn build_polylines_basic() {
    // Four nodes, two ways over them: the same shape the raw dataset's full
    // response carries once it is decoded.
    let nodes = vec![
        node(1, -118 * DEG, 34 * DEG),
        node(2, -1_179_990_000, 340_010_000),
        node(3, -1_179_980_000, 340_020_000),
        node(4, -1_179_970_000, 340_030_000),
    ];
    let ways = vec![
        OsmWay { node_refs: vec![1, 2, 3] },
        OsmWay { node_refs: vec![3, 4] },
    ];
    let lines = build_polylines(&nodes, &ways);
    assert_eq!(lines.len(), 2);
    assert_eq!(lines[0].points.len(), 3);
    assert_eq!(lines[1].points.len(), 2);

    // Verify coordinates
    assert_eq!(lines[0].points[0].lon, -118 * DEG);
    assert_eq!(lines[0].points[0].lat, 34 * DEG);
    assert_eq!(lines[1].points[1].lon, -1_179_970_000);
    assert_eq!(lines[1].points[1].lat, 340_030_000);
}

#[test]
fn build_polylines_missing_nodes() {
    let nodes = vec![node(1, -118 * DEG, 34 * DEG)];
    let ways = vec![OsmWay { node_refs: vec![1, 999] }];
    let lines = build_polylines(&nodes, &ways);
    // A way with only one resolvable node is dropped (< 2 positions).
    assert!(lines.is_empty());
}

#[test]
fn build_polylines_empty() {
    let nodes: Vec<OsmNode> = Vec::new();
    let ways: Vec<OsmWay> = Vec::new();
    let lines = build_polylines(&nodes, &ways);
    assert!(lines.is_empty());
}

#[test]
fn lookup_node_last_occurrence_wins() {
    let nodes = vec![
        node(7, -118 * DEG, 34 * DEG),
        node(7, -117 * DEG, 35 * DEG),
    ];
    let found = lookup_node(&nodes, 7).unwrap();
    assert_eq!(found.lon, -117 * DEG);
    assert_eq!(found.lat, 35 * DEG);
    assert!(lookup_node(&nodes, 8).is_none());
}

#[test]
fn sub_relation_refs_filters_by_kind() {
    let members = vec![
        RelationMember { member_type: "way".to_string(), member_ref: 100 },
        RelationMember { member_type: "relation".to_string(), member_ref: 200 },
        RelationMember { member_type: "node".to_string(), member_ref: 300 },
        RelationMember { member_type: "relation".to_string(), member_ref: 400 },
    ];
    let refs = sub_relation_refs(&members);
    assert_eq!(refs, vec![200, 400]);
}

#[test]
fn sub_relation_refs_empty() {
    let members: Vec<RelationMember> = Vec::new();
    assert!(sub_relation_refs(&members).is_empty());
}
