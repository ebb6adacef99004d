use rust_3d_rasterizer::barycentric::ScreenPoint;
use rust_3d_rasterizer::color::{pack_rgb, unpack_rgb};
use rust_3d_rasterizer::frame::DEPTH_FAR;
use rust_3d_rasterizer::mesh::{Mesh, Vec3i};
use rust_3d_rasterizer::renderer::Renderer;
use rust_3d_rasterizer::scene::ScreenVertex;

const BACKGROUND: u32 = 0xFF111111;
const SIZE: u32 = 200;

type V3 = [f32; 3];

fn sub(a: V3, b: V3) -> V3 {
    [a[0] - b[0], a[1] - b[1], a[2] - b[2]]
}

fn dot(a: V3, b: V3) -> f32 {
    a[0] * b[0] + a[1] * b[1] + a[2] * b[2]
}

fn cross(a: V3, b: V3) -> V3 {
    [a[1] * b[2] - a[2] * b[1], a[2] * b[0] - a[0] * b[2], a[0] * b[1] - a[1] * b[0]]
}

fn unit(a: V3) -> V3 {
    let len = dot(a, a).sqrt();
    if len > 0.0 {
        [a[0] / len, a[1] / len, a[2] / len]
    } else {
        a
    }
}

/// A camera at `eye` that looks at `target`, with a square picture and a
/// field of view of 45 degrees.
struct Camera {
    eye: V3,
    right: V3,
    up: V3,
    forward: V3,
    near: f32,
    far: f32,
}

impl Camera {
    fn look_at(eye: V3, target: V3) -> Camera {
        let forward = unit(sub(target, eye));
        let right = unit(cross(forward, [0.0, 1.0, 0.0]));
        let up = cross(right, forward);
        Camera { eye, right, up, forward, near: 0.1, far: 100.0 }
    }

    /// The point in the space of the camera, which looks down its negative
    /// z axis.
    fn view(&self, world: V3) -> V3 {
        let d = sub(world, self.eye);
        [dot(self.right, d), dot(self.up, d), -dot(self.forward, d)]
    }

    /// The place on the screen, or nothing for a point outside of the
    /// frustum.
    fn project(&self, world: V3) -> Option<ScreenVertex> {
        let p = self.view(world);
        if p[2] >= 0.0 {
            return None;
        }
        let f = 1.0 / (std::f32::consts::PI / 8.0).tan();
        let w = -p[2];
        let ndc_x = f * p[0] / w;
        let ndc_y = f * p[1] / w;
        let ndc_z = ((self.far + self.near) * p[2] + 2.0 * self.far * self.near) / (self.near - self.far) / w;
        for c in [ndc_x, ndc_y, ndc_z] {
            if !(-1.0..=1.0).contains(&c) {
                return None;
            }
        }
        let x = ((ndc_x + 1.0) * 0.5 * SIZE as f32).round() as i32;
        let y = ((1.0 - ndc_y) * 0.5 * SIZE as f32).round() as i32;
        let depth = (w as f64 / self.far as f64 * (DEPTH_FAR - 1) as f64) as u32;
        Some(ScreenVertex { position: ScreenPoint::new(x, y), depth })
    }
}

/// Draws the cube, moved by `offset`, under one light that shines along
/// `light_direction`, and gives back the picture.
fn render_cube(camera: &Camera, offset: V3, light_direction: V3) -> Renderer {
    let cube = Mesh::create_cube();
    let world: Vec<V3> = cube
        .transform_vertices(|v: &Vec3i| [v.x as f32 + offset[0], v.y as f32 + offset[1], v.z as f32 + offset[2]]);
    let normals: Vec<V3> = cube.transform_normals(|a: Vec3i, b: Vec3i, c: Vec3i| {
        let n = Vec3i::calculate_triangle_normal(a, b, c);
        unit([n.x as f32, n.y as f32, n.z as f32])
    });
    let corners: Vec<Option<ScreenVertex>> = world.iter().map(|&w| camera.project(w)).collect();
    let mut renderer = Renderer::new(SIZE, SIZE);
    renderer.clear(BACKGROUND);
    renderer.draw_mesh(&cube, &corners, 1, |t, _slot| {
        let triangle = &cube.triangles[t];
        let [a, b, c] = triangle.indices.map(|i| world[i]);
        let center = [(a[0] + b[0] + c[0]) / 3.0, (a[1] + b[1] + c[1]) / 3.0, (a[2] + b[2] + c[2]) / 3.0];
        if dot(normals[t], unit(sub(camera.eye, center))) < 0.0 {
            return None;
        }
        let diffuse = dot(normals[t], [-light_direction[0], -light_direction[1], -light_direction[2]]).max(0.0);
        let level = 0.2 + 0.8 * diffuse;
        let (r, g, b) = unpack_rgb(triangle.color);
        let lit = |channel: u8| (channel as f32 * level).min(255.0) as u8;
        Some(pack_rgb(lit(r), lit(g), lit(b)))
    });
    renderer
}

#[test]
fn camera_sees_the_origin_straight_ahead() {
    let camera = Camera::look_at([0.0, 0.0, 5.0], [0.0, 0.0, 0.0]);
    let p = camera.view([0.0, 0.0, 0.0]);
    assert!(p[0].abs() < 1e-5 && p[1].abs() < 1e-5);
    assert!((p[2] + 5.0).abs() < 1e-5);
    let middle = camera.project([0.0, 0.0, 0.0]).unwrap();
    assert_eq!(middle.position, ScreenPoint::new(100, 100));
}

#[test]
fn cube_in_front_of_the_camera_shows_its_silhouette() {
    let camera = Camera::look_at([0.0, 0.0, 8.0], [0.0, 0.0, 0.0]);
    let renderer = render_cube(&camera, [0.0, 0.0, 0.0], [0.0, 0.0, -1.0]);
    let pixels = renderer.get_framebuffer();
    // The front face is seven units away: its corners fall
    // 100 / (7 tan 22.5°) = 34.49 pixels from the middle.
    let green = pack_rgb(0, 255, 0);
    for y in 0..SIZE {
        for x in 0..SIZE {
            let inside = (66..=134).contains(&x) && (66..=134).contains(&y);
            let expected = if inside { green } else { BACKGROUND };
            assert_eq!(pixels[(y * SIZE + x) as usize], expected, "at ({x}, {y})");
        }
    }
    let painted = pixels.iter().filter(|&&p| p != BACKGROUND).count();
    assert_eq!(painted, 69 * 69);
}

#[test]
fn cube_seen_from_above_the_corner_shows_three_faces() {
    let camera = Camera::look_at([6.0, 6.0, 6.0], [0.0, 0.0, 0.0]);
    let renderer = render_cube(&camera, [0.0, 0.0, 0.0], [-1.0, -1.0, -1.0]);
    let pixels = renderer.get_framebuffer();
    let mut colours: Vec<u32> = pixels.iter().copied().filter(|&p| p != BACKGROUND).collect();
    let painted = colours.len();
    colours.sort();
    colours.dedup();
    // the faces towards +x, +y and +z, each under the same angle to the light
    assert_eq!(colours.len(), 3);
    assert!(painted > 2000);
    // the middle of the picture shows the corner nearest to the camera
    assert_ne!(pixels[(100 * SIZE + 100) as usize], BACKGROUND);
    // the corners of the picture are empty
    assert_eq!(pixels[0], BACKGROUND);
    assert_eq!(pixels[(SIZE * SIZE - 1) as usize], BACKGROUND);
}

#[test]
fn cube_outside_of_the_frustum_leaves_the_background() {
    let camera = Camera::look_at([0.0, 0.0, 8.0], [0.0, 0.0, 0.0]);
    for offset in [[50.0, 0.0, 0.0], [0.0, -40.0, 0.0], [0.0, 0.0, 20.0], [0.0, 0.0, -500.0]] {
        let renderer = render_cube(&camera, offset, [0.0, 0.0, -1.0]);
        assert!(renderer.get_framebuffer().iter().all(|&p| p == BACKGROUND));
        assert!(renderer.get_depth_buffer().iter().all(|&d| d == DEPTH_FAR));
    }
}

#[test]
fn cube_half_out_of_the_picture_is_left_out_by_whole_triangles() {
    let camera = Camera::look_at([0.0, 0.0, 8.0], [0.0, 0.0, 0.0]);
    // The right half of the cube is outside of the frustum: every triangle
    // of the front face has a corner there.
    let renderer = render_cube(&camera, [2.5, 0.0, 0.0], [0.0, 0.0, -1.0]);
    let green = pack_rgb(0, 255, 0);
    assert!(renderer.get_framebuffer().iter().all(|&p| p != green));
}
