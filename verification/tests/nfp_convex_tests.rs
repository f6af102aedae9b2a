use nfp::nfp_convex::{NFPConvex, NfpError};
use nfp::{point, to_arcline, Point};

fn square(side: f64) -> Vec<Point> {
    vec![point(0.0, 0.0), point(side, 0.0), point(side, side), point(0.0, side)]
}

fn triangle() -> Vec<Point> {
    vec![point(0.0, 0.0), point(1.0, 0.0), point(0.5, 1.0)]
}

#[test]
fn convex_nfp_of_two_squares_is_the_expected_square() {
    let nfp = NFPConvex::nfp(&square(10.0), &square(5.0)).unwrap();
    // The hull of all a + (-b) is the square from (-5, -5) to (10, 10).
    assert_eq!(nfp.len(), 4);
    assert!(nfp.len() <= 4 * 4 + 1);
    for corner in [point(-5.0, -5.0), point(10.0, -5.0), point(10.0, 10.0), point(-5.0, 10.0)] {
        assert!(nfp.contains(&corner), "missing corner {:?}", corner);
    }
}

#[test]
fn convex_nfp_vertices_are_reflected_sums() {
    let a = vec![point(0.0, 0.0), point(10.0, 0.0), point(5.0, 10.0)];
    let b = vec![point(0.0, 0.0), point(5.0, 0.0), point(2.5, 5.0)];
    let nfp = NFPConvex::nfp(&a, &b).unwrap();
    assert!(nfp.len() >= 3);
    for v in &nfp {
        let found = a.iter().any(|pa| b.iter().any(|pb| *v == *pa + (-*pb)));
        assert!(found, "{:?} is not a vertex of A plus a reflected vertex of B", v);
    }
}

#[test]
fn convex_nfp_of_translated_b_moves_opposite() {
    let b = vec![point(2.0, 2.0), point(3.0, 2.0), point(2.5, 3.0)];
    let nfp = NFPConvex::nfp(&triangle(), &b).unwrap();
    // every vertex is a - b with b shifted by (2, 2): x and y lie below 0
    for v in &nfp {
        assert!(v.x <= -1.0 + 1e-12 && v.y <= -1.0 + 1e-12);
    }
}

#[test]
fn convex_nfp_rejects_empty_a() {
    let empty: Vec<Point> = vec![];
    assert_eq!(NFPConvex::nfp(&empty, &triangle()), Err(NfpError::EmptyPolygon));
}

#[test]
fn convex_nfp_rejects_empty_b() {
    let empty: Vec<Point> = vec![];
    assert_eq!(NFPConvex::nfp(&triangle(), &empty), Err(NfpError::EmptyPolygon));
}

#[test]
fn convex_nfp_reports_emptiness_before_vertex_count() {
    let empty: Vec<Point> = vec![];
    let line = vec![point(0.0, 0.0), point(1.0, 0.0)];
    assert_eq!(NFPConvex::nfp(&line, &empty), Err(NfpError::EmptyPolygon));
}

#[test]
fn convex_nfp_rejects_two_vertices() {
    let line = vec![point(0.0, 0.0), point(1.0, 0.0)];
    assert_eq!(NFPConvex::nfp(&line, &triangle()), Err(NfpError::InsufficientVertices));
    assert_eq!(NFPConvex::nfp(&triangle(), &line), Err(NfpError::InsufficientVertices));
}

#[test]
fn error_messages() {
    assert_eq!(NfpError::EmptyPolygon.message(), "Polygons cannot be empty");
    assert_eq!(NfpError::InsufficientVertices.message(), "Polygons must have at least 3 vertices");
}

#[test]
fn test_to_arcline_triangle() {
    let triangle = vec![Point::new(0.0, 0.0), Point::new(1.0, 0.0), Point::new(0.5, 1.0)];
    let arcline = to_arcline(&triangle);
    assert_eq!(arcline.len(), 3); // 3 edges for a triangle
}

#[test]
fn test_to_arcline_square() {
    let square = vec![
        Point::new(0.0, 0.0),
        Point::new(1.0, 0.0),
        Point::new(1.0, 1.0),
        Point::new(0.0, 1.0),
    ];
    let arcline = to_arcline(&square);
    assert_eq!(arcline.len(), 4); // 4 edges for a square
}

#[test]
fn test_to_arcline_empty() {
    let empty: Vec<Point> = vec![];
    let arcline = to_arcline(&empty);
    assert_eq!(arcline.len(), 0);
}

#[test]
fn test_to_arcline_single_point() {
    let single = vec![Point::new(0.0, 0.0)];
    let arcline = to_arcline(&single);
    assert_eq!(arcline.len(), 1); // Single self-loop edge
}

#[test]
fn to_arcline_segments_join_vertices_and_close() {
    let poly = square(2.0);
    let arcs = to_arcline(&poly);
    for i in 0..poly.len() {
        assert_eq!(arcs[i].a, poly[i]);
        assert_eq!(arcs[i].b, poly[(i + 1) % poly.len()]);
        assert_eq!(arcs[i].b, arcs[(i + 1) % arcs.len()].a);
        assert!(arcs[i].is_seg());
    }
}
