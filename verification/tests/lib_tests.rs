use nfp::{point, Point};

#[test]
fn test_basic_functionality() {
    let point = Point { x: 1.0, y: 2.0 };
    assert_eq!(point.x, 1.0);
    assert_eq!(point.y, 2.0);
}

#[test]
fn point_helper_builds_the_same_point() {
    let p = point(1.5, 2.5);
    assert_eq!(p.x, 1.5);
    assert_eq!(p.y, 2.5);
}
