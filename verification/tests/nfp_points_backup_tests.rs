use nfp::nfp_points_backup::{polygon, to_arcline, NfpError, NFP};
use nfp::Point;

#[test]
fn nfp_points_backup_test_polygon_creation() {
    let vertices = vec![
        Point::new(0.0, 0.0),
        Point::new(1.0, 0.0),
        Point::new(1.0, 1.0),
        Point::new(0.0, 1.0),
    ];
    assert_eq!(polygon::len(&vertices), 4);
}

#[test]
fn backup_candidates_are_vertex_offsets() {
    let a = vec![Point::new(0.0, 0.0), Point::new(1.0, 0.0), Point::new(0.5, 1.0)];
    let b = vec![Point::new(5.0, 5.0), Point::new(6.0, 5.0), Point::new(5.5, 6.0), Point::new(5.0, 6.0)];
    let v = NFP::candidates(&a, &b).unwrap();
    assert_eq!(v.len(), a.len() * b.len());
    for k in 0..a.len() {
        for i in 0..b.len() {
            assert_eq!(v[k * b.len() + i], b[i] - a[k]);
        }
    }
    assert_eq!(v[1], Point::new(6.0, 5.0));
    assert_eq!(v[4], Point::new(4.0, 5.0));
}

#[test]
fn backup_candidates_errors() {
    let empty: Vec<Point> = vec![];
    let line = vec![Point::new(0.0, 0.0), Point::new(1.0, 0.0)];
    let triangle = vec![Point::new(0.0, 0.0), Point::new(1.0, 0.0), Point::new(0.5, 1.0)];
    assert_eq!(NFP::candidates(&empty, &triangle).unwrap_err(), NfpError::EmptyPolygon);
    assert_eq!(NFP::candidates(&triangle, &empty).unwrap_err(), NfpError::EmptyPolygon);
    assert_eq!(NFP::candidates(&line, &triangle).unwrap_err(), NfpError::InsufficientVertices);
    assert_eq!(NFP::candidates(&triangle, &line).unwrap_err(), NfpError::InsufficientVertices);
}

#[test]
fn backup_to_arcline_is_the_shared_one() {
    let triangle = vec![Point::new(0.0, 0.0), Point::new(1.0, 0.0), Point::new(0.5, 1.0)];
    let arcs = to_arcline(&triangle);
    assert_eq!(arcs.len(), 3);
    assert_eq!(arcs[2].a, triangle[2]);
    assert_eq!(arcs[2].b, triangle[0]);
}

#[test]
fn both_sweeps_propose_the_same_points() {
    let a = vec![Point::new(0.0, 0.0), Point::new(2.0, 0.0), Point::new(2.0, 1.0), Point::new(0.0, 1.0)];
    let b = vec![Point::new(0.0, 0.0), Point::new(1.0, 0.0), Point::new(0.5, 2.0)];
    let by_edge = nfp::nfp_points::NFP::candidates(&a, &b).unwrap();
    let by_vertex = NFP::candidates(&a, &b).unwrap();
    assert_eq!(by_edge.len(), 24);
    assert_eq!(by_vertex.len(), 12);
    for p in &by_edge {
        assert!(by_vertex.contains(p));
    }
    for p in &by_vertex {
        assert!(by_edge.contains(p));
    }
}
