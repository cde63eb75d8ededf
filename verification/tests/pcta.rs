use pct_diff::geom::Point;
use pct_diff::pcta::{collect_linestrings, GeomTree};

const DEG: i64 = 10_000_000;

fn p(lon: i64, lat: i64) -> Point {
    Point::new(lon, lat)
}

#[test]
fn collect_single_line() {
    let tree = GeomTree::Line(vec![p(-118 * DEG, 34 * DEG), p(-117 * DEG, 34 * DEG)]);
    let lines = collect_linestrings(&tree);
    assert_eq!(lines.len(), 1);
    assert_eq!(lines[0].points.len(), 2);
    assert_eq!(lines[0].points[0].lon, -118 * DEG);
}

#[test]
fn collect_drops_short_lines() {
    // A line with fewer than two points has zero length and is excluded.
    let tree = GeomTree::Pair(
        Box::new(GeomTree::Line(vec![p(-118 * DEG, 34 * DEG)])),
        Box::new(GeomTree::Pair(
            Box::new(GeomTree::Line(Vec::new())),
            Box::new(GeomTree::Empty),
        )),
    );
    let lines = collect_linestrings(&tree);
    assert!(lines.is_empty());
}

#[test]
fn collect_nested_collections_in_order() {
    // A collection of a line and a nested collection of two more lines,
    // flattened depth first, left to right.
    let l1 = GeomTree::Line(vec![p(0, 0), p(1_000, 0)]);
    let l2 = GeomTree::Line(vec![p(2_000, 0), p(3_000, 0)]);
    let l3 = GeomTree::Line(vec![p(4_000, 0), p(5_000, 0)]);
    let inner = GeomTree::Pair(
        Box::new(l2),
        Box::new(GeomTree::Pair(Box::new(l3), Box::new(GeomTree::Empty))),
    );
    let tree = GeomTree::Pair(
        Box::new(l1),
        Box::new(GeomTree::Pair(Box::new(inner), Box::new(GeomTree::Empty))),
    );
    let lines = collect_linestrings(&tree);
    assert_eq!(lines.len(), 3);
    assert_eq!(lines[0].points[0].lon, 0);
    assert_eq!(lines[1].points[0].lon, 2_000);
    assert_eq!(lines[2].points[0].lon, 4_000);
}

#[test]
fn collect_empty_tree() {
    let lines = collect_linestrings(&GeomTree::Empty);
    assert!(lines.is_empty());
}
