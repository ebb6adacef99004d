use rust_3d_rasterizer::barycentric::ScreenPoint;
use rust_3d_rasterizer::frame::{DEPTH_FAR, OPAQUE_BLACK};
use rust_3d_rasterizer::renderer::Renderer;

const RED: u32 = 0xFFFF0000;
const GREEN: u32 = 0xFF00FF00;
const BLUE: u32 = 0xFF0000FF;
const GRAY: u32 = 0xFF111111;

fn pixel(r: &Renderer, x: u32, y: u32) -> u32 {
    let (w, _) = r.get_dimension();
    r.get_framebuffer()[(y * w + x) as usize]
}

fn depth(r: &Renderer, x: u32, y: u32) -> u32 {
    let (w, _) = r.get_dimension();
    r.get_depth_buffer()[(y * w + x) as usize]
}

fn painted(r: &Renderer, color: u32) -> Vec<(u32, u32)> {
    let (w, h) = r.get_dimension();
    let mut out = Vec::new();
    for y in 0..h {
        for x in 0..w {
            if pixel(r, x, y) == color {
                out.push((x, y));
            }
        }
    }
    out
}

#[test]
fn new_renderer_is_black_and_far() {
    let r = Renderer::new(4, 3);
    assert_eq!(r.get_dimension(), (4, 3));
    assert_eq!(r.get_framebuffer().len(), 12);
    assert_eq!(r.get_depth_buffer().len(), 12);
    assert!(r.get_framebuffer().iter().all(|&p| p == OPAQUE_BLACK));
    assert!(r.get_depth_buffer().iter().all(|&d| d == DEPTH_FAR));
    assert_eq!(OPAQUE_BLACK, 0xFF000000);
    assert_eq!(DEPTH_FAR, u32::MAX);
}

#[test]
fn new_renderer_without_pixels() {
    let mut r = Renderer::new(0, 5);
    assert_eq!(r.get_dimension(), (0, 5));
    assert_eq!(r.get_framebuffer().len(), 0);
    r.set_pixel(0, 0, RED);
    r.draw_line(0, 0, 3, 3, RED);
    r.draw_triangle(ScreenPoint::new(0, 0), ScreenPoint::new(4, 0), ScreenPoint::new(0, 4), 1, 1, 1, RED);
    r.clear(GRAY);
    assert_eq!(r.get_framebuffer().len(), 0);
}

#[test]
fn set_pixel_writes_row_major() {
    let mut r = Renderer::new(4, 3);
    r.set_pixel(1, 2, RED);
    assert_eq!(r.get_framebuffer()[2 * 4 + 1], RED);
    assert_eq!(painted(&r, RED), vec![(1, 2)]);
    r.set_pixel(3, 0, GREEN);
    assert_eq!(r.get_framebuffer()[3], GREEN);
    // set_pixel does not touch the depth buffer
    assert!(r.get_depth_buffer().iter().all(|&d| d == DEPTH_FAR));
}

#[test]
fn set_pixel_outside_is_ignored() {
    let mut r = Renderer::new(4, 3);
    r.set_pixel(4, 0, RED);
    r.set_pixel(0, 3, RED);
    r.set_pixel(4, 3, RED);
    r.set_pixel(u32::MAX, u32::MAX, RED);
    r.set_pixel(u32::MAX, 1, RED);
    assert!(r.get_framebuffer().iter().all(|&p| p == OPAQUE_BLACK));
}

#[test]
fn clear_resets_pixels_and_depths() {
    let mut r = Renderer::new(5, 5);
    r.draw_triangle(ScreenPoint::new(0, 0), ScreenPoint::new(4, 0), ScreenPoint::new(0, 4), 7, 7, 7, RED);
    assert_eq!(pixel(&r, 1, 1), RED);
    assert_eq!(depth(&r, 1, 1), 7);
    r.clear(GRAY);
    assert_eq!(r.get_dimension(), (5, 5));
    assert!(r.get_framebuffer().iter().all(|&p| p == GRAY));
    assert!(r.get_depth_buffer().iter().all(|&d| d == DEPTH_FAR));
}

#[test]
fn triangle_covers_its_edges_and_corners() {
    let mut r = Renderer::new(6, 6);
    r.draw_triangle(ScreenPoint::new(0, 0), ScreenPoint::new(3, 0), ScreenPoint::new(0, 3), 5, 5, 5, RED);
    let expected = vec![
        (0, 0), (1, 0), (2, 0), (3, 0),
        (0, 1), (1, 1), (2, 1),
        (0, 2), (1, 2),
        (0, 3),
    ];
    assert_eq!(painted(&r, RED), expected);
    for &(x, y) in &expected {
        assert_eq!(depth(&r, x, y), 5);
    }
    assert_eq!(depth(&r, 3, 3), DEPTH_FAR);
}

#[test]
fn triangle_winding_does_not_matter() {
    let mut a = Renderer::new(8, 8);
    let mut b = Renderer::new(8, 8);
    let p = ScreenPoint::new(1, 1);
    let q = ScreenPoint::new(6, 2);
    let s = ScreenPoint::new(3, 6);
    a.draw_triangle(p, q, s, 10, 20, 30, RED);
    b.draw_triangle(p, s, q, 10, 30, 20, RED);
    assert_eq!(a.get_framebuffer(), b.get_framebuffer());
    assert_eq!(a.get_depth_buffer(), b.get_depth_buffer());
    assert!(painted(&a, RED).len() > 3);
}

#[test]
fn triangle_corners_in_any_order() {
    let corners = [(ScreenPoint::new(1, 0), 5u32), (ScreenPoint::new(9, 3), 70u32), (ScreenPoint::new(4, 8), 200u32)];
    let orders = [[0, 1, 2], [0, 2, 1], [1, 2, 0], [1, 0, 2], [2, 0, 1], [2, 1, 0]];
    let mut reference = Renderer::new(10, 10);
    reference.draw_triangle(corners[0].0, corners[1].0, corners[2].0, corners[0].1, corners[1].1, corners[2].1, BLUE);
    assert!(painted(&reference, BLUE).len() > 20);
    for order in orders {
        let [a, b, c] = order.map(|i| corners[i]);
        let mut r = Renderer::new(10, 10);
        r.draw_triangle(a.0, b.0, c.0, a.1, b.1, c.1, BLUE);
        assert_eq!(r.get_framebuffer(), reference.get_framebuffer());
        assert_eq!(r.get_depth_buffer(), reference.get_depth_buffer());
    }
}

#[test]
fn degenerate_triangle_draws_nothing() {
    let mut r = Renderer::new(8, 8);
    // three points on one line
    r.draw_triangle(ScreenPoint::new(0, 0), ScreenPoint::new(2, 2), ScreenPoint::new(5, 5), 1, 1, 1, RED);
    // two equal corners
    r.draw_triangle(ScreenPoint::new(1, 1), ScreenPoint::new(1, 1), ScreenPoint::new(5, 3), 1, 1, 1, RED);
    // a single point
    r.draw_triangle(ScreenPoint::new(2, 2), ScreenPoint::new(2, 2), ScreenPoint::new(2, 2), 1, 1, 1, RED);
    assert!(r.get_framebuffer().iter().all(|&p| p == OPAQUE_BLACK));
    assert!(r.get_depth_buffer().iter().all(|&d| d == DEPTH_FAR));
}

#[test]
fn triangle_is_clipped_to_the_surface() {
    let mut r = Renderer::new(4, 4);
    r.draw_triangle(ScreenPoint::new(-10, -10), ScreenPoint::new(30, -10), ScreenPoint::new(-10, 30), 3, 3, 3, BLUE);
    assert!(r.get_framebuffer().iter().all(|&p| p == BLUE));
    assert!(r.get_depth_buffer().iter().all(|&d| d == 3));

    let mut off = Renderer::new(4, 4);
    off.draw_triangle(ScreenPoint::new(10, 10), ScreenPoint::new(20, 10), ScreenPoint::new(10, 20), 3, 3, 3, BLUE);
    off.draw_triangle(ScreenPoint::new(-9, -9), ScreenPoint::new(-2, -9), ScreenPoint::new(-9, -2), 3, 3, 3, BLUE);
    off.draw_triangle(ScreenPoint::new(0, -5), ScreenPoint::new(3, -5), ScreenPoint::new(0, -1), 3, 3, 3, BLUE);
    assert!(off.get_framebuffer().iter().all(|&p| p == OPAQUE_BLACK));
}

#[test]
fn triangle_with_extreme_corners() {
    let mut r = Renderer::new(3, 3);
    // the half of the plane below the diagonal y = x
    r.draw_triangle(
        ScreenPoint::new(i32::MIN, i32::MIN),
        ScreenPoint::new(i32::MAX, i32::MIN),
        ScreenPoint::new(i32::MAX, i32::MAX),
        u32::MAX - 1,
        u32::MAX - 1,
        u32::MAX - 1,
        GREEN,
    );
    assert_eq!(painted(&r, GREEN), vec![(0, 0), (1, 0), (2, 0), (1, 1), (2, 1), (2, 2)]);
    assert_eq!(depth(&r, 2, 1), u32::MAX - 1);
    assert_eq!(depth(&r, 0, 1), DEPTH_FAR);
}

#[test]
fn depth_is_interpolated_and_rounded_down() {
    let mut r = Renderer::new(5, 5);
    // depth 0 at (0,0), 40 at (4,0), 80 at (0,4): depth = 10 x + 20 y
    r.draw_triangle(ScreenPoint::new(0, 0), ScreenPoint::new(4, 0), ScreenPoint::new(0, 4), 0, 40, 80, RED);
    assert_eq!(depth(&r, 0, 0), 0);
    assert_eq!(depth(&r, 4, 0), 40);
    assert_eq!(depth(&r, 0, 4), 80);
    assert_eq!(depth(&r, 1, 1), 30);
    assert_eq!(depth(&r, 2, 1), 40);
    assert_eq!(depth(&r, 1, 3), 70);
    assert_eq!(depth(&r, 4, 4), DEPTH_FAR);

    let mut q = Renderer::new(4, 4);
    // depth 0 at (0,0), 1 at (3,0), 2 at (0,3): depth = (x + 2 y) / 3, rounded down
    q.draw_triangle(ScreenPoint::new(0, 0), ScreenPoint::new(3, 0), ScreenPoint::new(0, 3), 0, 1, 2, RED);
    assert_eq!(depth(&q, 1, 0), 0);
    assert_eq!(depth(&q, 2, 0), 0);
    assert_eq!(depth(&q, 3, 0), 1);
    assert_eq!(depth(&q, 1, 1), 1);
    assert_eq!(depth(&q, 0, 2), 1);
    assert_eq!(depth(&q, 1, 2), 1);
    assert_eq!(depth(&q, 0, 3), 2);
}

#[test]
fn nearer_triangle_wins_drawn_last() {
    let mut r = Renderer::new(8, 8);
    r.clear(GRAY);
    // far, red
    r.draw_triangle(ScreenPoint::new(0, 0), ScreenPoint::new(7, 0), ScreenPoint::new(0, 7), 900, 900, 900, RED);
    // near, green, overlapping
    r.draw_triangle(ScreenPoint::new(0, 0), ScreenPoint::new(4, 0), ScreenPoint::new(0, 4), 100, 100, 100, GREEN);
    assert_eq!(pixel(&r, 1, 1), GREEN);
    assert_eq!(depth(&r, 1, 1), 100);
    assert_eq!(pixel(&r, 4, 2), RED);
    assert_eq!(depth(&r, 4, 2), 900);
    assert_eq!(pixel(&r, 7, 7), GRAY);
}

#[test]
fn nearer_triangle_wins_drawn_first() {
    let mut r = Renderer::new(8, 8);
    r.clear(GRAY);
    r.draw_triangle(ScreenPoint::new(0, 0), ScreenPoint::new(4, 0), ScreenPoint::new(0, 4), 100, 100, 100, GREEN);
    r.draw_triangle(ScreenPoint::new(0, 0), ScreenPoint::new(7, 0), ScreenPoint::new(0, 7), 900, 900, 900, RED);
    assert_eq!(pixel(&r, 1, 1), GREEN);
    assert_eq!(depth(&r, 1, 1), 100);
    assert_eq!(pixel(&r, 4, 2), RED);
    assert_eq!(pixel(&r, 7, 7), GRAY);
}

#[test]
fn draw_order_does_not_change_the_picture() {
    let a = (ScreenPoint::new(0, 0), ScreenPoint::new(9, 1), ScreenPoint::new(2, 9), 10u32, 500u32, 900u32, RED);
    let b = (ScreenPoint::new(9, 9), ScreenPoint::new(0, 8), ScreenPoint::new(8, 0), 301u32, 401u32, 701u32, GREEN);
    let mut first = Renderer::new(10, 10);
    first.draw_triangle(a.0, a.1, a.2, a.3, a.4, a.5, a.6);
    first.draw_triangle(b.0, b.1, b.2, b.3, b.4, b.5, b.6);
    let mut second = Renderer::new(10, 10);
    second.draw_triangle(b.0, b.1, b.2, b.3, b.4, b.5, b.6);
    second.draw_triangle(a.0, a.1, a.2, a.3, a.4, a.5, a.6);

    // the two triangles never have the same depth at a pixel that both cover
    let mut only_a = Renderer::new(10, 10);
    only_a.draw_triangle(a.0, a.1, a.2, a.3, a.4, a.5, a.6);
    let mut only_b = Renderer::new(10, 10);
    only_b.draw_triangle(b.0, b.1, b.2, b.3, b.4, b.5, b.6);
    let mut overlap = 0;
    for k in 0..100 {
        let da = only_a.get_depth_buffer()[k];
        let db = only_b.get_depth_buffer()[k];
        if da != DEPTH_FAR && db != DEPTH_FAR {
            overlap += 1;
            assert_ne!(da, db);
            let near = if da < db { RED } else { GREEN };
            assert_eq!(first.get_framebuffer()[k], near);
            assert_eq!(first.get_depth_buffer()[k], da.min(db));
        }
    }
    assert!(overlap > 5);
    assert_eq!(first.get_framebuffer(), second.get_framebuffer());
    assert_eq!(first.get_depth_buffer(), second.get_depth_buffer());
}

#[test]
fn equal_depth_keeps_the_first_triangle() {
    let mut r = Renderer::new(4, 4);
    r.draw_triangle(ScreenPoint::new(0, 0), ScreenPoint::new(3, 0), ScreenPoint::new(0, 3), 50, 50, 50, RED);
    r.draw_triangle(ScreenPoint::new(0, 0), ScreenPoint::new(3, 0), ScreenPoint::new(0, 3), 50, 50, 50, GREEN);
    assert_eq!(pixel(&r, 1, 1), RED);
    assert_eq!(painted(&r, GREEN), vec![]);
}

#[test]
fn farthest_depth_is_never_drawn() {
    let mut r = Renderer::new(4, 4);
    r.draw_triangle(ScreenPoint::new(0, 0), ScreenPoint::new(3, 0), ScreenPoint::new(0, 3), DEPTH_FAR, DEPTH_FAR, DEPTH_FAR, RED);
    assert!(r.get_framebuffer().iter().all(|&p| p == OPAQUE_BLACK));
}

#[test]
fn line_does_not_test_or_write_depth() {
    let mut r = Renderer::new(4, 4);
    r.draw_triangle(ScreenPoint::new(0, 0), ScreenPoint::new(3, 0), ScreenPoint::new(0, 3), 0, 0, 0, RED);
    let depths: Vec<u32> = r.get_depth_buffer().to_vec();
    r.draw_line(0, 0, 3, 3, BLUE);
    assert_eq!(painted(&r, BLUE), vec![(0, 0), (1, 1), (2, 2), (3, 3)]);
    assert_eq!(r.get_depth_buffer(), &depths[..]);
}
