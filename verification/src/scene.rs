//! The drawing pass over the triangles of one object.
//!
//! Before the pass, every vertex of the object's mesh has been carried to
//! the screen, or has been found to lie outside of the view. The pass goes
//! through the triangles in their order. A triangle of which a corner lies
//! outside of the view is left out as a whole. For every other triangle the
//! caller's shader is asked for a colour, and may leave the triangle out as
//! well. What is left is drawn with the depth test.

use crate::barycentric::ScreenPoint;
use crate::frame::{lemma_draw_order_independent, Frame, ShadedTriangle};
use crate::mesh::{Mesh, Triangle};
use crate::renderer::Renderer;
use vstd::prelude::*;

verus! {

/// A vertex on the screen: the pixel that it falls on and its depth.
#[derive(Clone, Copy, Debug, PartialEq, Eq, Structural)]
pub struct ScreenVertex {
    pub position: ScreenPoint,
    pub depth: u32,
}

/// Whether all three corners of the triangle are on the screen. `corners`
/// holds the screen vertex of every vertex of the mesh, or nothing for a
/// vertex outside of the view.
pub open spec fn in_view(triangle: Triangle, corners: Seq<Option<ScreenVertex>>) -> bool {
    &&& corners[triangle.indices[0] as int] is Some
    &&& corners[triangle.indices[1] as int] is Some
    &&& corners[triangle.indices[2] as int] is Some
}

/// The triangle as it is drawn: with its three corners on the screen and
/// the colour that the shader gave it. Nothing is drawn of a triangle that
/// is not in view and of one that the shader gave no colour.
pub open spec fn shaded(
    triangle: Triangle,
    corners: Seq<Option<ScreenVertex>>,
    color: Option<u32>,
) -> Option<ShadedTriangle> {
    if in_view(triangle, corners) && color is Some {
        let a = corners[triangle.indices[0] as int]->0;
        let b = corners[triangle.indices[1] as int]->0;
        let c = corners[triangle.indices[2] as int]->0;
        Some(
            ShadedTriangle {
                v0: a.position,
                v1: b.position,
                v2: c.position,
                z0: a.depth,
                z1: b.depth,
                z2: c.depth,
                color: color->0,
            },
        )
    } else {
        None
    }
}

impl Frame {
    /// The frame after drawing the first `count` of `triangles` in their
    /// order, each with its colour out of `colors`.
    pub open spec fn with_triangles(
        self,
        triangles: Seq<Triangle>,
        corners: Seq<Option<ScreenVertex>>,
        colors: Seq<Option<u32>>,
        count: int,
    ) -> Frame
        decreases count,
    {
        if count <= 0 {
            self
        } else {
            let before = self.with_triangles(triangles, corners, colors, count - 1);
            match shaded(triangles[count - 1], corners, colors[count - 1]) {
                Some(t) => before.with_triangle(t),
                None => before,
            }
        }
    }
}

/// What the first `count` triangles do to a frame depends on the first
/// `count` triangles and colours only.
proof fn lemma_with_triangles_prefix(
    f: Frame,
    triangles: Seq<Triangle>,
    others: Seq<Triangle>,
    corners: Seq<Option<ScreenVertex>>,
    colors: Seq<Option<u32>>,
    other_colors: Seq<Option<u32>>,
    count: int,
)
    requires
        forall|t: int| 0 <= t < count ==> triangles[t] == others[t],
        forall|t: int| 0 <= t < count ==> colors[t] == other_colors[t],
    ensures
        f.with_triangles(triangles, corners, colors, count) == f.with_triangles(
            others,
            corners,
            other_colors,
            count,
        ),
    decreases count,
{
    if count > 0 {
        lemma_with_triangles_prefix(
            f,
            triangles,
            others,
            corners,
            colors,
            other_colors,
            count - 1,
        );
    }
}

/// Drawing keeps a frame well formed.
proof fn lemma_with_triangles_wf(
    f: Frame,
    triangles: Seq<Triangle>,
    corners: Seq<Option<ScreenVertex>>,
    colors: Seq<Option<u32>>,
    count: int,
)
    requires
        f.wf(),
    ensures
        f.with_triangles(triangles, corners, colors, count).wf(),
        f.with_triangles(triangles, corners, colors, count).width == f.width,
        f.with_triangles(triangles, corners, colors, count).height == f.height,
    decreases count,
{
    if count > 0 {
        lemma_with_triangles_wf(f, triangles, corners, colors, count - 1);
    }
}

/// Whether two triangles have the same depth at a pixel of the frame that
/// both of them cover.
pub open spec fn tie(f: Frame, a: ShadedTriangle, b: ShadedTriangle) -> bool {
    exists|x: int, y: int|
        f.in_bounds(x, y) && #[trigger] a.covers(x, y) && #[trigger] b.covers(x, y) && a.depth_at(
            x,
            y,
        ) == b.depth_at(x, y)
}

/// The depth test makes the picture independent of the order of the
/// triangles in a pass: two neighbours in the list may trade places, with
/// their colours, as long as the two do not tie where both are drawn.
pub proof fn lemma_neighbours_trade_places(
    f: Frame,
    triangles: Seq<Triangle>,
    corners: Seq<Option<ScreenVertex>>,
    colors: Seq<Option<u32>>,
    i: int,
    count: int,
)
    requires
        f.wf(),
        0 <= i,
        i + 1 < count <= triangles.len(),
        triangles.len() == colors.len(),
        shaded(triangles[i], corners, colors[i]) matches Some(a) ==> (shaded(
            triangles[i + 1],
            corners,
            colors[i + 1],
        ) matches Some(b) ==> !tie(f, a, b)),
    ensures
        f.with_triangles(
            triangles.update(i, triangles[i + 1]).update(i + 1, triangles[i]),
            corners,
            colors.update(i, colors[i + 1]).update(i + 1, colors[i]),
            count,
        ) == f.with_triangles(triangles, corners, colors, count),
    decreases count,
{
    let traded = triangles.update(i, triangles[i + 1]).update(i + 1, triangles[i]);
    let traded_colors = colors.update(i, colors[i + 1]).update(i + 1, colors[i]);
    if count == i + 2 {
        let before = f.with_triangles(triangles, corners, colors, i);
        lemma_with_triangles_prefix(f, triangles, traded, corners, colors, traded_colors, i);
        lemma_with_triangles_wf(f, triangles, corners, colors, i);
        let first = shaded(triangles[i], corners, colors[i]);
        let second = shaded(triangles[i + 1], corners, colors[i + 1]);
        assert(f.with_triangles(triangles, corners, colors, i + 1) == match first {
            Some(t) => before.with_triangle(t),
            None => before,
        });
        assert(f.with_triangles(traded, corners, traded_colors, i + 1) == match second {
            Some(t) => before.with_triangle(t),
            None => before,
        });
        if first is Some && second is Some {
            let a = first->0;
            let b = second->0;
            assert forall|x: int, y: int|
                before.in_bounds(x, y) && #[trigger] a.covers(x, y) && #[trigger] b.covers(
                    x,
                    y,
                ) implies a.depth_at(x, y) != b.depth_at(x, y) by {
                if a.depth_at(x, y) == b.depth_at(x, y) {
                    assert(f.in_bounds(x, y) && a.covers(x, y) && b.covers(x, y));
                    assert(tie(f, a, b));
                }
            }
            lemma_draw_order_independent(before, a, b);
        }
    } else {
        lemma_neighbours_trade_places(f, triangles, corners, colors, i, count - 1);
    }
}

/// A pass in which no triangle is both in view and given a colour leaves
/// the frame as it is. So does, in particular, the pass over an object that
/// lies outside of the view altogether.
pub proof fn lemma_nothing_in_view_draws_nothing(
    f: Frame,
    triangles: Seq<Triangle>,
    corners: Seq<Option<ScreenVertex>>,
    colors: Seq<Option<u32>>,
    count: int,
)
    requires
        forall|t: int|
            0 <= t < count ==> !in_view(#[trigger] triangles[t], corners) || colors[t] is None,
    ensures
        f.with_triangles(triangles, corners, colors, count) == f,
    decreases count,
{
    if count > 0 {
        lemma_nothing_in_view_draws_nothing(f, triangles, corners, colors, count - 1);
        assert(!in_view(triangles[count - 1], corners) || colors[count - 1] is None);
    }
}

impl Renderer {
    /// Draws the triangles of `mesh` in their order. `corners` holds the
    /// screen vertex of every vertex of the mesh, or nothing for a vertex
    /// outside of the view. A triangle with a corner outside of the view is
    /// left out as a whole. For every other triangle, `shade` is called with
    /// the index of the triangle and the index of its material out of
    /// `material_count`; it gives the colour to draw the triangle with, or
    /// nothing to leave it out. The result tells for every triangle the
    /// colour that it was drawn with, if it was drawn.
    pub fn draw_mesh<V, F: Fn(usize, usize) -> Option<u32>>(
        &mut self,
        mesh: &Mesh<V>,
        corners: &Vec<Option<ScreenVertex>>,
        material_count: usize,
        shade: F,
    ) -> (drawn: Vec<Option<u32>>)
        requires
            old(self).wf(),
            mesh.wf(),
            corners@.len() == mesh.vertices@.len(),
            material_count > 0,
            forall|t: int|
                0 <= t < mesh.triangles@.len() ==> call_requires(
                    shade,
                    (
                        t as usize,
                        (#[trigger] mesh.triangles@[t]).material_slot(material_count as nat) as usize,
                    ),
                ),
        ensures
            final(self).wf(),
            drawn@.len() == mesh.triangles@.len(),
            forall|t: int|
                0 <= t < mesh.triangles@.len() ==> if in_view(mesh.triangles@[t], corners@) {
                    call_ensures(
                        shade,
                        (
                            t as usize,
                            mesh.triangles@[t].material_slot(material_count as nat) as usize,
                        ),
                        #[trigger] drawn@[t],
                    )
                } else {
                    drawn@[t] is None
                },
            final(self)@ == old(self)@.with_triangles(
                mesh.triangles@,
                corners@,
                drawn@,
                mesh.triangles@.len() as int,
            ),
    {
        let ghost start = self@;
        let count = mesh.triangles.len();
        let mut drawn: Vec<Option<u32>> = Vec::with_capacity(count);
        for t in 0..count
            invariant
                self.wf(),
                mesh.wf(),
                corners@.len() == mesh.vertices@.len(),
                material_count > 0,
                count == mesh.triangles@.len(),
                drawn@.len() == t,
                forall|k: int|
                    0 <= k < count ==> call_requires(
                        shade,
                        (
                            k as usize,
                            (#[trigger] mesh.triangles@[k]).material_slot(material_count as nat) as usize,
                        ),
                    ),
                forall|k: int|
                    0 <= k < t ==> if in_view(mesh.triangles@[k], corners@) {
                        call_ensures(
                            shade,
                            (
                                k as usize,
                                mesh.triangles@[k].material_slot(material_count as nat) as usize,
                            ),
                            #[trigger] drawn@[k],
                        )
                    } else {
                        drawn@[k] is None
                    },
                self@ == start.with_triangles(mesh.triangles@, corners@, drawn@, t as int),
        {
            let ghost before = drawn@;
            let triangle = mesh.triangles[t];
            assert(triangle.valid_for(mesh.vertices@.len()));
            let slot = triangle.resolve_material(material_count);
            let c0 = corners[triangle.indices[0]];
            let c1 = corners[triangle.indices[1]];
            let c2 = corners[triangle.indices[2]];
            let color = match (c0, c1, c2) {
                (Some(a), Some(b), Some(c)) => {
                    let color = shade(t, slot);
                    if let Some(rgb) = color {
                        self.draw_triangle(
                            a.position,
                            b.position,
                            c.position,
                            a.depth,
                            b.depth,
                            c.depth,
                            rgb,
                        );
                    }
                    color
                },
                _ => None,
            };
            drawn.push(color);
            proof {
                lemma_with_triangles_prefix(
                    start,
                    mesh.triangles@,
                    mesh.triangles@,
                    corners@,
                    before,
                    drawn@,
                    t as int,
                );
            }
        }
        drawn
    }
}

} // verus!
