//! Indexed triangle meshes.
//!
//! A mesh owns a list of vertices and a list of triangles; a triangle names
//! three vertices by their index, a packed colour and, optionally, a
//! material. The mesh never looks inside a vertex, so it is generic over the
//! vertex type. Meshes whose vertices lie on the integer lattice get more:
//! exact bounds, exact face normals and the built-in shapes.

use vstd::prelude::*;

verus! {

/// Three vertex indices, a packed colour and an optional material index.
#[derive(Copy, Clone, Debug)]
pub struct Triangle {
    pub indices: [usize; 3],
    pub color: u32,
    pub material_id: Option<usize>,
}

impl Triangle {
    /// Whether the triangle names the vertices `i0`, `i1`, `i2` in this
    /// order and has the given colour and material.
    pub open spec fn holds(
        self,
        i0: usize,
        i1: usize,
        i2: usize,
        color: u32,
        material_id: Option<usize>,
    ) -> bool {
        &&& self.indices[0] == i0
        &&& self.indices[1] == i1
        &&& self.indices[2] == i2
        &&& self.color == color
        &&& self.material_id == material_id
    }

    /// Whether all three indices name a vertex of a list of `count` vertices.
    pub open spec fn valid_for(self, count: nat) -> bool {
        &&& self.indices[0] < count
        &&& self.indices[1] < count
        &&& self.indices[2] < count
    }

    /// The index of the material to shade the triangle with, out of `count`
    /// materials: its own, or the first one where it has none or names one
    /// that is not there.
    pub open spec fn material_slot(self, count: nat) -> nat {
        match self.material_id {
            Some(id) => if id < count {
                id as nat
            } else {
                0
            },
            None => 0,
        }
    }

    /// A triangle without a material.
    pub fn new(i0: usize, i1: usize, i2: usize, color: u32) -> (t: Triangle)
        ensures
            t.holds(i0, i1, i2, color, None),
    {
        Triangle { indices: [i0, i1, i2], color, material_id: None }
    }

    /// A triangle that names a material.
    pub fn with_material(i0: usize, i1: usize, i2: usize, color: u32, material_id: usize) -> (t:
        Triangle)
        ensures
            t.holds(i0, i1, i2, color, Some(material_id)),
    {
        Triangle { indices: [i0, i1, i2], color, material_id: Some(material_id) }
    }

    /// The three vertices of the triangle, in the order of its indices.
    pub fn get_vertices<V: Copy>(&self, mesh: &Mesh<V>) -> (corners: (V, V, V))
        requires
            self.valid_for(mesh.vertices@.len()),
        ensures
            corners.0 == mesh.vertices@[self.indices[0] as int],
            corners.1 == mesh.vertices@[self.indices[1] as int],
            corners.2 == mesh.vertices@[self.indices[2] as int],
    {
        (
            mesh.vertices[self.indices[0]],
            mesh.vertices[self.indices[1]],
            mesh.vertices[self.indices[2]],
        )
    }

    /// The index of the material to shade the triangle with, out of
    /// `material_count` materials.
    pub fn resolve_material(&self, material_count: usize) -> (slot: usize)
        requires
            material_count > 0,
        ensures
            slot == self.material_slot(material_count as nat),
            slot < material_count,
    {
        match self.material_id {
            Some(id) => if id < material_count {
                id
            } else {
                0
            },
            None => 0,
        }
    }

    /// The face normal of the triangle in a lattice mesh, not normalized.
    pub fn calculate_normal(&self, mesh: &Mesh<Vec3i>) -> (normal: FaceNormal)
        requires
            self.valid_for(mesh.vertices@.len()),
        ensures
            normal@ == face_normal(
                mesh.vertices@[self.indices[0] as int],
                mesh.vertices@[self.indices[1] as int],
                mesh.vertices@[self.indices[2] as int],
            ),
    {
        let (v0, v1, v2) = self.get_vertices(mesh);
        Vec3i::calculate_triangle_normal(v0, v1, v2)
    }
}

/// A point of the integer lattice in three dimensions.
#[derive(Copy, Clone, Debug, PartialEq, Eq, Structural)]
pub struct Vec3i {
    pub x: i32,
    pub y: i32,
    pub z: i32,
}

/// A direction in three dimensions with whole-numbered components.
#[derive(Copy, Clone, Debug, PartialEq, Eq, Structural)]
pub struct FaceNormal {
    pub x: i128,
    pub y: i128,
    pub z: i128,
}

impl View for FaceNormal {
    type V = (int, int, int);

    open spec fn view(&self) -> (int, int, int) {
        (self.x as int, self.y as int, self.z as int)
    }
}

/// The cross product `(v1 - v0) × (v2 - v0)`: a vector at a right angle to
/// the triangle, towards the side from which `v0`, `v1`, `v2` run
/// counter-clockwise. Its length is twice the area of the triangle.
pub open spec fn face_normal(v0: Vec3i, v1: Vec3i, v2: Vec3i) -> (int, int, int) {
    let ax = v1.x - v0.x;
    let ay = v1.y - v0.y;
    let az = v1.z - v0.z;
    let bx = v2.x - v0.x;
    let by = v2.y - v0.y;
    let bz = v2.z - v0.z;
    (ay * bz - az * by, az * bx - ax * bz, ax * by - ay * bx)
}

/// The dot product of two vectors.
pub open spec fn dot3(a: (int, int, int), b: (int, int, int)) -> int {
    a.0 * b.0 + a.1 * b.1 + a.2 * b.2
}

proof fn lemma_product_bounded(a: int, b: int)
    requires
        -0x1_0000_0000 < a < 0x1_0000_0000,
        -0x1_0000_0000 < b < 0x1_0000_0000,
    ensures
        -0x1_0000_0000_0000_0000 < a * b < 0x1_0000_0000_0000_0000,
{
    assert(-0x1_0000_0000_0000_0000 < a * b < 0x1_0000_0000_0000_0000) by (nonlinear_arith)
        requires
            -0x1_0000_0000 < a < 0x1_0000_0000,
            -0x1_0000_0000 < b < 0x1_0000_0000,
    ;
}

impl Vec3i {
    pub fn new(x: i32, y: i32, z: i32) -> (v: Vec3i)
        ensures
            v.x == x,
            v.y == y,
            v.z == z,
    {
        Vec3i { x, y, z }
    }

    /// The zero vector.
    pub fn zero() -> (v: Vec3i)
        ensures
            v.x == 0,
            v.y == 0,
            v.z == 0,
    {
        Vec3i { x: 0, y: 0, z: 0 }
    }

    /// The face normal of the triangle `(v0, v1, v2)`, not normalized.
    pub fn calculate_triangle_normal(v0: Vec3i, v1: Vec3i, v2: Vec3i) -> (normal: FaceNormal)
        ensures
            normal@ == face_normal(v0, v1, v2),
    {
        let ax: i128 = v1.x as i128 - v0.x as i128;
        let ay: i128 = v1.y as i128 - v0.y as i128;
        let az: i128 = v1.z as i128 - v0.z as i128;
        let bx: i128 = v2.x as i128 - v0.x as i128;
        let by: i128 = v2.y as i128 - v0.y as i128;
        let bz: i128 = v2.z as i128 - v0.z as i128;
        proof {
            lemma_product_bounded(ay as int, bz as int);
            lemma_product_bounded(az as int, by as int);
            lemma_product_bounded(az as int, bx as int);
            lemma_product_bounded(ax as int, bz as int);
            lemma_product_bounded(ax as int, by as int);
            lemma_product_bounded(ay as int, bx as int);
        }
        FaceNormal { x: ay * bz - az * by, y: az * bx - ax * bz, z: ax * by - ay * bx }
    }
}

/// A list of vertices and a list of triangles over them.
pub struct Mesh<V> {
    pub vertices: Vec<V>,
    pub triangles: Vec<Triangle>,
}

impl<V> Mesh<V> {
    /// Every triangle names three vertices of the mesh.
    pub open spec fn wf(&self) -> bool {
        forall|t: int|
            0 <= t < self.triangles@.len() ==> (#[trigger] self.triangles@[t]).valid_for(
                self.vertices@.len(),
            )
    }

    /// A mesh without vertices and triangles.
    pub fn new() -> (mesh: Mesh<V>)
        ensures
            mesh.vertices@.len() == 0,
            mesh.triangles@.len() == 0,
            mesh.wf(),
    {
        Mesh { vertices: Vec::new(), triangles: Vec::new() }
    }

    /// Appends a vertex and returns its index.
    pub fn add_vertex(&mut self, vertex: V) -> (index: usize)
        ensures
            final(self).vertices@ == old(self).vertices@.push(vertex),
            final(self).triangles@ == old(self).triangles@,
            index == old(self).vertices@.len(),
            old(self).wf() ==> final(self).wf(),
    {
        self.vertices.push(vertex);
        self.vertices.len() - 1
    }

    /// Appends a triangle. Its indices are the caller's to keep valid.
    pub fn add_triangle(&mut self, triangle: Triangle)
        ensures
            final(self).triangles@ == old(self).triangles@.push(triangle),
            final(self).vertices@ == old(self).vertices@,
            old(self).wf() && triangle.valid_for(old(self).vertices@.len()) ==> final(self).wf(),
    {
        self.triangles.push(triangle);
    }

    /// Maps every vertex through `transform`, in order.
    pub fn transform_vertices<W, F: Fn(&V) -> W>(&self, transform: F) -> (moved: Vec<W>)
        requires
            forall|i: int|
                0 <= i < self.vertices@.len() ==> call_requires(
                    transform,
                    (&#[trigger] self.vertices@[i],),
                ),
        ensures
            moved@.len() == self.vertices@.len(),
            forall|i: int|
                0 <= i < self.vertices@.len() ==> call_ensures(
                    transform,
                    (&self.vertices@[i],),
                    #[trigger] moved@[i],
                ),
    {
        let count = self.vertices.len();
        let mut moved: Vec<W> = Vec::with_capacity(count);
        for i in 0..count
            invariant
                count == self.vertices@.len(),
                moved@.len() == i,
                forall|k: int|
                    0 <= k < count ==> call_requires(transform, (&#[trigger] self.vertices@[k],)),
                forall|k: int|
                    0 <= k < i ==> call_ensures(
                        transform,
                        (&self.vertices@[k],),
                        #[trigger] moved@[k],
                    ),
        {
            let w = transform(&self.vertices[i]);
            moved.push(w);
        }
        moved
    }

    /// The three vertices that the triangle `t` names.
    pub open spec fn corners(&self, t: int) -> (V, V, V) {
        (
            self.vertices@[self.triangles@[t].indices[0] as int],
            self.vertices@[self.triangles@[t].indices[1] as int],
            self.vertices@[self.triangles@[t].indices[2] as int],
        )
    }

    /// Computes one value per triangle from its three vertices, in the
    /// order of the triangles: a face normal in the space that the caller
    /// works in.
    pub fn transform_normals<N, F: Fn(V, V, V) -> N>(&self, normal_of: F) -> (normals: Vec<N>)
        where V: Copy
        requires
            self.wf(),
            forall|t: int|
                0 <= t < self.triangles@.len() ==> call_requires(
                    normal_of,
                    #[trigger] self.corners(t),
                ),
        ensures
            normals@.len() == self.triangles@.len(),
            forall|t: int|
                0 <= t < self.triangles@.len() ==> call_ensures(
                    normal_of,
                    self.corners(t),
                    #[trigger] normals@[t],
                ),
    {
        let count = self.triangles.len();
        let mut normals: Vec<N> = Vec::with_capacity(count);
        for t in 0..count
            invariant
                self.wf(),
                count == self.triangles@.len(),
                normals@.len() == t,
                forall|k: int|
                    0 <= k < count ==> call_requires(normal_of, #[trigger] self.corners(k)),
                forall|k: int|
                    0 <= k < t ==> call_ensures(
                        normal_of,
                        self.corners(k),
                        #[trigger] normals@[k],
                    ),
        {
            let triangle = self.triangles[t];
            let (v0, v1, v2) = triangle.get_vertices(self);
            assert((v0, v1, v2) == self.corners(t as int));
            normals.push(normal_of(v0, v1, v2));
        }
        normals
    }
}

/// The lattice point with the given coordinates.
pub open spec fn lattice(x: int, y: int, z: int) -> Vec3i {
    Vec3i { x: x as i32, y: y as i32, z: z as i32 }
}

/// The corners of the cube with the edge length two that is centred at the
/// origin: the front face (`z = 1`) from the lower left counter-clockwise,
/// then the back face in the same order.
pub open spec fn cube_corners() -> Seq<Vec3i> {
    seq![
        lattice(-1, -1, 1),
        lattice(1, -1, 1),
        lattice(1, 1, 1),
        lattice(-1, 1, 1),
        lattice(-1, -1, -1),
        lattice(1, -1, -1),
        lattice(1, 1, -1),
        lattice(-1, 1, -1),
    ]
}

/// The twelve triangles of the cube, two per face, each with its three
/// corners and the colour of its face: front green, back red, left blue,
/// right yellow, top magenta, bottom cyan.
pub open spec fn cube_faces() -> Seq<(usize, usize, usize, u32)> {
    seq![
        (0usize, 1usize, 2usize, 0xFF00_FF00u32),
        (2usize, 3usize, 0usize, 0xFF00_FF00u32),
        (5usize, 4usize, 7usize, 0xFFFF_0000u32),
        (7usize, 6usize, 5usize, 0xFFFF_0000u32),
        (4usize, 0usize, 3usize, 0xFF00_00FFu32),
        (3usize, 7usize, 4usize, 0xFF00_00FFu32),
        (1usize, 5usize, 6usize, 0xFFFF_FF00u32),
        (6usize, 2usize, 1usize, 0xFFFF_FF00u32),
        (3usize, 2usize, 6usize, 0xFFFF_00FFu32),
        (6usize, 7usize, 3usize, 0xFFFF_00FFu32),
        (4usize, 5usize, 1usize, 0xFF00_FFFFu32),
        (1usize, 0usize, 4usize, 0xFF00_FFFFu32),
    ]
}

/// Whether the mesh is the cube: it has the eight corners and the twelve
/// triangles, none of them with a material.
pub open spec fn is_cube(mesh: Mesh<Vec3i>) -> bool {
    &&& mesh.vertices@ == cube_corners()
    &&& mesh.triangles@.len() == 12
    &&& forall|t: int|
        0 <= t < 12 ==> (#[trigger] mesh.triangles@[t]).holds(
            cube_faces()[t].0,
            cube_faces()[t].1,
            cube_faces()[t].2,
            cube_faces()[t].3,
            None,
        )
}

/// Whether the mesh is the single red triangle in the plane `z = 0`, with
/// its top at `(0, 1, 0)`.
pub open spec fn is_single_triangle(mesh: Mesh<Vec3i>) -> bool {
    &&& mesh.vertices@ == seq![
        lattice(0, 1, 0),
        lattice(-1, -1, 0),
        lattice(1, -1, 0),
    ]
    &&& mesh.triangles@.len() == 1
    &&& mesh.triangles@[0].holds(0, 1, 2, 0xFFFF_0000, None)
}

/// Whether `low` and `high` are the corners of the smallest box with sides
/// along the axes that holds all of `points`: no point lies outside, and on
/// each of its six sides lies a point.
pub open spec fn bounds_of(points: Seq<Vec3i>, low: Vec3i, high: Vec3i) -> bool {
    &&& forall|i: int|
        0 <= i < points.len() ==> {
            &&& low.x <= (#[trigger] points[i]).x <= high.x
            &&& low.y <= points[i].y <= high.y
            &&& low.z <= points[i].z <= high.z
        }
    &&& exists|i: int| 0 <= i < points.len() && (#[trigger] points[i]).x == low.x
    &&& exists|i: int| 0 <= i < points.len() && (#[trigger] points[i]).y == low.y
    &&& exists|i: int| 0 <= i < points.len() && (#[trigger] points[i]).z == low.z
    &&& exists|i: int| 0 <= i < points.len() && (#[trigger] points[i]).x == high.x
    &&& exists|i: int| 0 <= i < points.len() && (#[trigger] points[i]).y == high.y
    &&& exists|i: int| 0 <= i < points.len() && (#[trigger] points[i]).z == high.z
}

fn lesser(a: i32, b: i32) -> (m: i32)
    ensures
        m <= a,
        m <= b,
        m == a || m == b,
{
    if a <= b {
        a
    } else {
        b
    }
}

fn greater(a: i32, b: i32) -> (m: i32)
    ensures
        m >= a,
        m >= b,
        m == a || m == b,
{
    if a >= b {
        a
    } else {
        b
    }
}

impl Mesh<Vec3i> {
    /// The cube with the edge length two, centred at the origin. Every
    /// triangle runs counter-clockwise when seen from outside of the cube.
    pub fn create_cube() -> (mesh: Mesh<Vec3i>)
        ensures
            is_cube(mesh),
            mesh.wf(),
    {
        let mut mesh: Mesh<Vec3i> = Mesh::new();
        mesh.add_vertex(Vec3i::new(-1, -1, 1));
        mesh.add_vertex(Vec3i::new(1, -1, 1));
        mesh.add_vertex(Vec3i::new(1, 1, 1));
        mesh.add_vertex(Vec3i::new(-1, 1, 1));
        mesh.add_vertex(Vec3i::new(-1, -1, -1));
        mesh.add_vertex(Vec3i::new(1, -1, -1));
        mesh.add_vertex(Vec3i::new(1, 1, -1));
        mesh.add_vertex(Vec3i::new(-1, 1, -1));
        assert(mesh.vertices@ =~= cube_corners());
        mesh.add_triangle(Triangle::new(0, 1, 2, 0xFF00_FF00));
        mesh.add_triangle(Triangle::new(2, 3, 0, 0xFF00_FF00));
        mesh.add_triangle(Triangle::new(5, 4, 7, 0xFFFF_0000));
        mesh.add_triangle(Triangle::new(7, 6, 5, 0xFFFF_0000));
        mesh.add_triangle(Triangle::new(4, 0, 3, 0xFF00_00FF));
        mesh.add_triangle(Triangle::new(3, 7, 4, 0xFF00_00FF));
        mesh.add_triangle(Triangle::new(1, 5, 6, 0xFFFF_FF00));
        mesh.add_triangle(Triangle::new(6, 2, 1, 0xFFFF_FF00));
        mesh.add_triangle(Triangle::new(3, 2, 6, 0xFFFF_00FF));
        mesh.add_triangle(Triangle::new(6, 7, 3, 0xFFFF_00FF));
        mesh.add_triangle(Triangle::new(4, 5, 1, 0xFF00_FFFF));
        mesh.add_triangle(Triangle::new(1, 0, 4, 0xFF00_FFFF));
        mesh
    }

    /// A single red triangle in the plane `z = 0`, counter-clockwise when
    /// seen from the side of positive `z`.
    pub fn create_triangle() -> (mesh: Mesh<Vec3i>)
        ensures
            is_single_triangle(mesh),
            mesh.wf(),
    {
        let mut mesh: Mesh<Vec3i> = Mesh::new();
        mesh.add_vertex(Vec3i::new(0, 1, 0));
        mesh.add_vertex(Vec3i::new(-1, -1, 0));
        mesh.add_vertex(Vec3i::new(1, -1, 0));
        assert(mesh.vertices@ =~= seq![
            lattice(0, 1, 0),
            lattice(-1, -1, 0),
            lattice(1, -1, 0),
        ]);
        mesh.add_triangle(Triangle::new(0, 1, 2, 0xFFFF_0000));
        mesh
    }

    /// The two corners of the smallest box with sides along the axes that
    /// holds every vertex: first the corner with the least coordinates, then
    /// the one with the greatest. For a mesh without vertices both are zero.
    pub fn get_bounds(&self) -> (bounds: (Vec3i, Vec3i))
        ensures
            self.vertices@.len() == 0 ==> bounds.0 == lattice(0, 0, 0) && bounds.1 == lattice(
                0,
                0,
                0,
            ),
            self.vertices@.len() > 0 ==> bounds_of(self.vertices@, bounds.0, bounds.1),
    {
        if self.vertices.len() == 0 {
            return (Vec3i::zero(), Vec3i::zero());
        }
        let mut low = self.vertices[0];
        let mut high = self.vertices[0];
        let count = self.vertices.len();
        assert(self.vertices@.take(1)[0] == low);
        for n in 1..count
            invariant
                count == self.vertices@.len(),
                count > 0,
                bounds_of(self.vertices@.take(n as int), low, high),
        {
            let ghost before = self.vertices@.take(n as int);
            let ghost after = self.vertices@.take(n + 1);
            let vertex = self.vertices[n];
            let ghost old_low = low;
            let ghost old_high = high;
            low = Vec3i {
                x: lesser(low.x, vertex.x),
                y: lesser(low.y, vertex.y),
                z: lesser(low.z, vertex.z),
            };
            high = Vec3i {
                x: greater(high.x, vertex.x),
                y: greater(high.y, vertex.y),
                z: greater(high.z, vertex.z),
            };
            proof {
                assert(after[n as int] == vertex);
                assert forall|i: int| 0 <= i < n implies after[i] == before[i] by {}
                let ix = choose|i: int| 0 <= i < n && (#[trigger] before[i]).x == old_low.x;
                let iy = choose|i: int| 0 <= i < n && (#[trigger] before[i]).y == old_low.y;
                let iz = choose|i: int| 0 <= i < n && (#[trigger] before[i]).z == old_low.z;
                let jx = choose|i: int| 0 <= i < n && (#[trigger] before[i]).x == old_high.x;
                let jy = choose|i: int| 0 <= i < n && (#[trigger] before[i]).y == old_high.y;
                let jz = choose|i: int| 0 <= i < n && (#[trigger] before[i]).z == old_high.z;
                assert(after[ix].x == old_low.x && after[iy].y == old_low.y && after[iz].z
                    == old_low.z);
                assert(after[jx].x == old_high.x && after[jy].y == old_high.y && after[jz].z
                    == old_high.z);
                assert forall|i: int| 0 <= i < after.len() implies {
                    &&& low.x <= (#[trigger] after[i]).x <= high.x
                    &&& low.y <= after[i].y <= high.y
                    &&& low.z <= after[i].z <= high.z
                } by {
                    if i < n {
                        assert(after[i] == before[i]);
                    }
                }
            }
        }
        assert(self.vertices@.take(count as int) =~= self.vertices@);
        (low, high)
    }
}

/// Whether the triangle `(v0, v1, v2)` of a solid around the origin faces
/// outwards: its face normal points away from the origin, so that the
/// triangle runs counter-clockwise when seen from outside.
pub open spec fn faces_outward(v0: Vec3i, v1: Vec3i, v2: Vec3i) -> bool {
    dot3(face_normal(v0, v1, v2), (v0.x + v1.x + v2.x, v0.y + v1.y + v2.y, v0.z + v1.z + v2.z))
        > 0
}

/// Every triangle of the cube faces outwards, and its face normal runs
/// along one axis.
pub proof fn lemma_cube_faces_outward(t: int)
    requires
        0 <= t < 12,
    ensures
        ({
            let v0 = cube_corners()[cube_faces()[t].0 as int];
            let v1 = cube_corners()[cube_faces()[t].1 as int];
            let v2 = cube_corners()[cube_faces()[t].2 as int];
            let normal = face_normal(v0, v1, v2);
            &&& faces_outward(v0, v1, v2)
            &&& (normal.0 == 0 && normal.1 == 0) || (normal.0 == 0 && normal.2 == 0) || (normal.1
                == 0 && normal.2 == 0)
        }),
{
    let faces = cube_faces();
    let c = cube_corners();
    assert(c[0].x == -1 && c[0].y == -1 && c[0].z == 1);
    assert(c[1].x == 1 && c[1].y == -1 && c[1].z == 1);
    assert(c[2].x == 1 && c[2].y == 1 && c[2].z == 1);
    assert(c[3].x == -1 && c[3].y == 1 && c[3].z == 1);
    assert(c[4].x == -1 && c[4].y == -1 && c[4].z == -1);
    assert(c[5].x == 1 && c[5].y == -1 && c[5].z == -1);
    assert(c[6].x == 1 && c[6].y == 1 && c[6].z == -1);
    assert(c[7].x == -1 && c[7].y == 1 && c[7].z == -1);
    if t == 0 {
        assert(faces[0] == (0usize, 1usize, 2usize, 0xFF00_FF00u32));
        lemma_lattice_face(c[0], c[1], c[2]);
        assert(face_normal(c[0], c[1], c[2]) == (0int, 0int, 4int));
        assert(faces_outward(c[0], c[1], c[2]));
    } else if t == 1 {
        assert(faces[1] == (2usize, 3usize, 0usize, 0xFF00_FF00u32));
        lemma_lattice_face(c[2], c[3], c[0]);
        assert(face_normal(c[2], c[3], c[0]) == (0int, 0int, 4int));
        assert(faces_outward(c[2], c[3], c[0]));
    } else if t == 2 {
        assert(faces[2] == (5usize, 4usize, 7usize, 0xFFFF_0000u32));
        lemma_lattice_face(c[5], c[4], c[7]);
        assert(face_normal(c[5], c[4], c[7]) == (0int, 0int, -4int));
        assert(faces_outward(c[5], c[4], c[7]));
    } else if t == 3 {
        assert(faces[3] == (7usize, 6usize, 5usize, 0xFFFF_0000u32));
        lemma_lattice_face(c[7], c[6], c[5]);
        assert(face_normal(c[7], c[6], c[5]) == (0int, 0int, -4int));
        assert(faces_outward(c[7], c[6], c[5]));
    } else if t == 4 {
        assert(faces[4] == (4usize, 0usize, 3usize, 0xFF00_00FFu32));
        lemma_lattice_face(c[4], c[0], c[3]);
        assert(face_normal(c[4], c[0], c[3]) == (-4int, 0int, 0int));
        assert(faces_outward(c[4], c[0], c[3]));
    } else if t == 5 {
        assert(faces[5] == (3usize, 7usize, 4usize, 0xFF00_00FFu32));
        lemma_lattice_face(c[3], c[7], c[4]);
        assert(face_normal(c[3], c[7], c[4]) == (-4int, 0int, 0int));
        assert(faces_outward(c[3], c[7], c[4]));
    } else if t == 6 {
        assert(faces[6] == (1usize, 5usize, 6usize, 0xFFFF_FF00u32));
        lemma_lattice_face(c[1], c[5], c[6]);
        assert(face_normal(c[1], c[5], c[6]) == (4int, 0int, 0int));
        assert(faces_outward(c[1], c[5], c[6]));
    } else if t == 7 {
        assert(faces[7] == (6usize, 2usize, 1usize, 0xFFFF_FF00u32));
        lemma_lattice_face(c[6], c[2], c[1]);
        assert(face_normal(c[6], c[2], c[1]) == (4int, 0int, 0int));
        assert(faces_outward(c[6], c[2], c[1]));
    } else if t == 8 {
        assert(faces[8] == (3usize, 2usize, 6usize, 0xFFFF_00FFu32));
        lemma_lattice_face(c[3], c[2], c[6]);
        assert(face_normal(c[3], c[2], c[6]) == (0int, 4int, 0int));
        assert(faces_outward(c[3], c[2], c[6]));
    } else if t == 9 {
        assert(faces[9] == (6usize, 7usize, 3usize, 0xFFFF_00FFu32));
        lemma_lattice_face(c[6], c[7], c[3]);
        assert(face_normal(c[6], c[7], c[3]) == (0int, 4int, 0int));
        assert(faces_outward(c[6], c[7], c[3]));
    } else if t == 10 {
        assert(faces[10] == (4usize, 5usize, 1usize, 0xFF00_FFFFu32));
        lemma_lattice_face(c[4], c[5], c[1]);
        assert(face_normal(c[4], c[5], c[1]) == (0int, -4int, 0int));
        assert(faces_outward(c[4], c[5], c[1]));
    } else {
        assert(faces[11] == (1usize, 0usize, 4usize, 0xFF00_FFFFu32));
        lemma_lattice_face(c[1], c[0], c[4]);
        assert(face_normal(c[1], c[0], c[4]) == (0int, -4int, 0int));
        assert(faces_outward(c[1], c[0], c[4]));
    }
}

/// The face normal of a triangle with corners among those of the cube, and
/// whether it points away from the origin, worked out by cases: every
/// component of an edge is 0, 2 or -2, so that no product is left to take.
proof fn lemma_lattice_face(v0: Vec3i, v1: Vec3i, v2: Vec3i)
    requires
        unit(v0.x as int) && unit(v0.y as int) && unit(v0.z as int),
        unit(v1.x as int) && unit(v1.y as int) && unit(v1.z as int),
        unit(v2.x as int) && unit(v2.y as int) && unit(v2.z as int),
    ensures
        face_normal(v0, v1, v2) == (
            edge_product(v0.y as int, v1.y as int, v0.z as int, v2.z as int) - edge_product(
                v0.z as int,
                v1.z as int,
                v0.y as int,
                v2.y as int,
            ),
            edge_product(v0.z as int, v1.z as int, v0.x as int, v2.x as int) - edge_product(
                v0.x as int,
                v1.x as int,
                v0.z as int,
                v2.z as int,
            ),
            edge_product(v0.x as int, v1.x as int, v0.y as int, v2.y as int) - edge_product(
                v0.y as int,
                v1.y as int,
                v0.x as int,
                v2.x as int,
            ),
        ),
        faces_outward(v0, v1, v2) == (scaled(face_normal(v0, v1, v2).0, v0.x + v1.x + v2.x)
            + scaled(face_normal(v0, v1, v2).1, v0.y + v1.y + v2.y) + scaled(
            face_normal(v0, v1, v2).2,
            v0.z + v1.z + v2.z,
        ) > 0),
{
    lemma_edge_product(v0.y as int, v1.y as int, v0.z as int, v2.z as int);
    lemma_edge_product(v0.z as int, v1.z as int, v0.y as int, v2.y as int);
    lemma_edge_product(v0.z as int, v1.z as int, v0.x as int, v2.x as int);
    lemma_edge_product(v0.x as int, v1.x as int, v0.z as int, v2.z as int);
    lemma_edge_product(v0.x as int, v1.x as int, v0.y as int, v2.y as int);
    lemma_edge_product(v0.y as int, v1.y as int, v0.x as int, v2.x as int);
    let n = face_normal(v0, v1, v2);
    lemma_scaled(n.0, v0.x + v1.x + v2.x);
    lemma_scaled(n.1, v0.y + v1.y + v2.y);
    lemma_scaled(n.2, v0.z + v1.z + v2.z);
}

/// Whether a coordinate is that of a corner of the cube.
spec fn unit(c: int) -> bool {
    c == 1 || c == -1
}

/// The product `(a1 - a0) * (b2 - b0)` of two edge components of the cube,
/// by cases.
spec fn edge_product(a0: int, a1: int, b0: int, b2: int) -> int {
    let a = a1 - a0;
    let b = b2 - b0;
    if a == 0 || b == 0 {
        0
    } else if a == b {
        4
    } else {
        -4
    }
}

proof fn lemma_edge_product(a0: int, a1: int, b0: int, b2: int)
    requires
        unit(a0),
        unit(a1),
        unit(b0),
        unit(b2),
    ensures
        edge_product(a0, a1, b0, b2) == (a1 - a0) * (b2 - b0),
        edge_product(a0, a1, b0, b2) == 0 || edge_product(a0, a1, b0, b2) == 4 || edge_product(
            a0,
            a1,
            b0,
            b2,
        ) == -4,
{
    let a = a1 - a0;
    let b = b2 - b0;
    assert(a == 0 || a == 2 || a == -2);
    assert(b == 0 || b == 2 || b == -2);
    assert(edge_product(a0, a1, b0, b2) == a * b) by (nonlinear_arith)
        requires
            a == a1 - a0,
            b == b2 - b0,
            a == 0 || a == 2 || a == -2,
            b == 0 || b == 2 || b == -2,
    ;
}

/// The product of a component of such a face normal and a sum, by cases.
spec fn scaled(n: int, s: int) -> int {
    if n == 0 {
        0
    } else if n == 4 {
        4 * s
    } else if n == -4 {
        -4 * s
    } else if n == 8 {
        8 * s
    } else {
        -8 * s
    }
}

proof fn lemma_scaled(n: int, s: int)
    requires
        n == 0 || n == 4 || n == -4 || n == 8 || n == -8,
    ensures
        scaled(n, s) == n * s,
{
    assert(scaled(n, s) == n * s) by (nonlinear_arith)
        requires
            n == 0 || n == 4 || n == -4 || n == 8 || n == -8,
    ;
}

} // verus!
