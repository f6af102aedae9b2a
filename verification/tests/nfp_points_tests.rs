use nfp::nfp_points::polygon;
use nfp::nfp_points::{NfpError, NFP};
use nfp::Point;

#[test]
fn nfp_points_test_polygon_creation() {
    let vertices = vec![
        Point::new(0.0, 0.0),
        Point::new(1.0, 0.0),
        Point::new(1.0, 1.0),
        Point::new(0.0, 1.0),
    ];
    assert_eq!(polygon::len(&vertices), 4);
}

#[test]
fn polygon_is_empty_and_len() {
    let empty: Vec<Point> = vec![];
    assert!(polygon::is_empty(&empty));
    assert_eq!(polygon::len(&empty), 0);
    assert!(!polygon::is_empty(&[Point::new(0.0, 0.0)]));
}

#[test]
fn polygon_reverse_and_back() {
    let initial = vec![Point::new(0.0, 0.0), Point::new(1.0, 0.0), Point::new(1.0, 1.0), Point::new(0.0, 1.0), Point::new(-1.0, 0.5)];
    let mut v = initial.clone();
    polygon::reverse(&mut v);
    let expected: Vec<Point> = initial.iter().rev().copied().collect();
    assert_eq!(v, expected);
    polygon::reverse(&mut v);
    assert_eq!(v, initial);
}

#[test]
fn polygon_translate_adds_offset() {
    let v = vec![Point::new(0.0, 0.0), Point::new(1.0, 2.0), Point::new(-3.0, 0.5)];
    let t = polygon::translate(&v, &Point::new(2.0, -1.0));
    assert_eq!(t, vec![Point::new(2.0, -1.0), Point::new(3.0, 1.0), Point::new(-1.0, -0.5)]);
}

#[test]
fn candidates_are_edge_offsets() {
    let a = vec![Point::new(0.0, 0.0), Point::new(1.0, 0.0), Point::new(0.5, 1.0)];
    let b = vec![Point::new(2.0, 2.0), Point::new(3.0, 2.0), Point::new(2.5, 3.0), Point::new(2.0, 3.0)];
    let v = NFP::candidates(&a, &b).unwrap();
    assert_eq!(v.len(), 2 * a.len() * b.len());
    for i in 0..b.len() {
        for k in 0..a.len() {
            let e = i * a.len() + k;
            assert_eq!(v[2 * e], b[i] - a[k]);
            assert_eq!(v[2 * e + 1], b[(i + 1) % b.len()] - a[k]);
        }
    }
    // the first offset is b[0] - a[0]
    assert_eq!(v[0], Point::new(2.0, 2.0));
    assert_eq!(v[1], Point::new(3.0, 2.0));
}

#[test]
fn candidates_reject_empty_a() {
    let empty: Vec<Point> = vec![];
    let triangle = vec![Point::new(0.0, 0.0), Point::new(1.0, 0.0), Point::new(0.5, 1.0)];
    assert_eq!(NFP::candidates(&empty, &triangle).unwrap_err(), NfpError::EmptyPolygon);
}

#[test]
fn candidates_reject_empty_b() {
    let empty: Vec<Point> = vec![];
    let triangle = vec![Point::new(0.0, 0.0), Point::new(1.0, 0.0), Point::new(0.5, 1.0)];
    assert_eq!(NFP::candidates(&triangle, &empty).unwrap_err(), NfpError::EmptyPolygon);
}

#[test]
fn candidates_reject_insufficient_vertices() {
    let line = vec![Point::new(0.0, 0.0), Point::new(1.0, 0.0)];
    let triangle = vec![Point::new(0.0, 0.0), Point::new(1.0, 0.0), Point::new(0.5, 1.0)];
    assert_eq!(NFP::candidates(&line, &triangle).unwrap_err(), NfpError::InsufficientVertices);
}
