use rust_3d_rasterizer::barycentric::{barycentric_coordinates, Barycentric, ScreenPoint};

fn p(x: i32, y: i32) -> ScreenPoint {
    ScreenPoint::new(x, y)
}

fn weights(point: ScreenPoint, v0: ScreenPoint, v1: ScreenPoint, v2: ScreenPoint) -> (i128, i128, i128, i128) {
    let b = barycentric_coordinates(point, v0, v1, v2).expect("the triangle has an area");
    (b.u, b.v, b.w, b.den)
}

#[test]
fn weights_at_the_corners_are_unit() {
    let (v0, v1, v2) = (p(1, 1), p(7, 2), p(3, 9));
    let den = weights(v0, v0, v1, v2).3;
    assert!(den > 0);
    assert_eq!(weights(v0, v0, v1, v2), (den, 0, 0, den));
    assert_eq!(weights(v1, v0, v1, v2), (0, den, 0, den));
    assert_eq!(weights(v2, v0, v1, v2), (0, 0, den, den));
}

#[test]
fn weights_at_the_corners_are_unit_clockwise() {
    let (v0, v1, v2) = (p(1, 1), p(3, 9), p(7, 2));
    let den = weights(v0, v0, v1, v2).3;
    assert!(den > 0);
    assert_eq!(weights(v0, v0, v1, v2), (den, 0, 0, den));
    assert_eq!(weights(v1, v0, v1, v2), (0, den, 0, den));
    assert_eq!(weights(v2, v0, v1, v2), (0, 0, den, den));
}

#[test]
fn weights_are_exact() {
    // twice the area of this triangle is 9
    let (v0, v1, v2) = (p(0, 0), p(3, 0), p(0, 3));
    assert_eq!(weights(p(1, 1), v0, v1, v2), (3, 3, 3, 9));
    assert_eq!(weights(p(2, 0), v0, v1, v2), (3, 6, 0, 9));
    assert_eq!(weights(p(0, 1), v0, v1, v2), (6, 0, 3, 9));
    assert_eq!(weights(p(3, 3), v0, v1, v2), (-9, 9, 9, 9));
    assert_eq!(weights(p(-1, 0), v0, v1, v2), (12, -3, 0, 9));
}

#[test]
fn weights_add_up_to_one_everywhere() {
    let (v0, v1, v2) = (p(-4, 3), p(9, -2), p(2, 11));
    for y in -15..15 {
        for x in -15..15 {
            let (u, v, w, den) = weights(p(x, y), v0, v1, v2);
            assert!(den > 0);
            assert_eq!(u + v + w, den);
        }
    }
}

#[test]
fn weights_reproduce_the_point() {
    let (v0, v1, v2) = (p(-4, 3), p(9, -2), p(2, 11));
    for y in -6..14 {
        for x in -6..12 {
            let (u, v, w, den) = weights(p(x, y), v0, v1, v2);
            assert_eq!(den * x as i128, u * -4 + v * 9 + w * 2);
            assert_eq!(den * y as i128, u * 3 + v * -2 + w * 11);
        }
    }
}

#[test]
fn inside_means_no_negative_weight() {
    let (v0, v1, v2) = (p(0, 0), p(4, 0), p(0, 4));
    let inside = |x: i32, y: i32| barycentric_coordinates(p(x, y), v0, v1, v2).unwrap().is_inside();
    // inner points
    assert!(inside(1, 1));
    assert!(inside(1, 2));
    // corners and edges
    assert!(inside(0, 0));
    assert!(inside(4, 0));
    assert!(inside(0, 4));
    assert!(inside(2, 0));
    assert!(inside(0, 3));
    assert!(inside(2, 2));
    assert!(inside(3, 1));
    // outside
    assert!(!inside(3, 2));
    assert!(!inside(-1, 0));
    assert!(!inside(0, -1));
    assert!(!inside(5, 0));
    assert!(!inside(4, 4));
    for y in -3..8 {
        for x in -3..8 {
            let b = barycentric_coordinates(p(x, y), v0, v1, v2).unwrap();
            assert_eq!(b.is_inside(), b.u >= 0 && b.v >= 0 && b.w >= 0);
            assert_eq!(b.is_inside(), x >= 0 && y >= 0 && x + y <= 4);
        }
    }
}

#[test]
fn degenerate_triangle_has_no_weights() {
    assert!(barycentric_coordinates(p(1, 1), p(0, 0), p(2, 2), p(5, 5)).is_none());
    assert!(barycentric_coordinates(p(1, 1), p(3, 3), p(3, 3), p(8, 1)).is_none());
    assert!(barycentric_coordinates(p(1, 1), p(3, 3), p(3, 3), p(3, 3)).is_none());
    assert!(barycentric_coordinates(p(0, 0), p(i32::MIN, 0), p(0, 0), p(i32::MAX, 0)).is_none());
    assert!(barycentric_coordinates(p(1, 1), p(0, 0), p(2, 2), p(5, 6)).is_some());
}

#[test]
fn weights_of_the_largest_triangle() {
    let (v0, v1, v2) = (p(i32::MIN, i32::MIN), p(i32::MAX, i32::MIN), p(i32::MIN, i32::MAX));
    let side = i32::MAX as i128 - i32::MIN as i128;
    let den = side * side;
    assert_eq!(weights(v0, v0, v1, v2), (den, 0, 0, den));
    assert_eq!(weights(p(i32::MAX, i32::MAX), v0, v1, v2), (-den, den, den, den));
    let b = barycentric_coordinates(v1, v0, v1, v2).unwrap();
    assert_eq!(b.interpolate_depth(0, u32::MAX, 0), u32::MAX);
}

#[test]
fn depth_is_the_weighted_mean_rounded_down() {
    let b = Barycentric { u: 3, v: 3, w: 3, den: 9 };
    assert_eq!(b.interpolate_depth(5, 5, 5), 5);
    assert_eq!(b.interpolate_depth(0, 30, 60), 30);
    assert_eq!(b.interpolate_depth(0, 0, 1), 0);
    assert_eq!(b.interpolate_depth(1, 1, 0), 0);
    assert_eq!(b.interpolate_depth(1, 1, 1), 1);
    assert_eq!(b.interpolate_depth(u32::MAX, u32::MAX, u32::MAX), u32::MAX);
    let corner = Barycentric { u: 0, v: 7, w: 0, den: 7 };
    assert_eq!(corner.interpolate_depth(10, 20, 30), 20);
    let edge = Barycentric { u: 1, v: 0, w: 3, den: 4 };
    assert_eq!(edge.interpolate_depth(10, 999, 20), 17);
}

#[test]
fn screen_point_keeps_its_coordinates() {
    let q = ScreenPoint::new(-7, 12);
    assert_eq!((q.x, q.y), (-7, 12));
    assert_eq!(q, ScreenPoint { x: -7, y: 12 });
}
