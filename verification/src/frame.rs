//! What a renderer holds and what drawing does to it, as mathematical
//! values.
//!
//! A frame is a pixel buffer and a depth buffer of the same layout: packed
//! `0xAARRGGBB` pixels in row-major order, the top row first, and beside
//! every pixel its depth. A smaller depth is nearer to the viewer, and
//! `DEPTH_FAR` stands for a pixel that nothing has been drawn on.

use crate::barycentric::{
    covers, depth_at, lemma_interpolate_between, lemma_order_of_corners,
    lemma_weights_sum_to_one, max3, min3, weights_at, ScreenPoint,
};
use crate::line::on_line;
use vstd::prelude::*;

verus! {

/// The depth of a pixel that nothing has been drawn on: farther than
/// anything that can be drawn.
pub const DEPTH_FAR: u32 = 0xFFFF_FFFF;

/// The colour that a new renderer starts with: opaque black.
pub const OPAQUE_BLACK: u32 = 0xFF00_0000;

/// What a renderer holds, as mathematical values.
pub struct Frame {
    pub width: nat,
    pub height: nat,
    pub pixels: Seq<u32>,
    pub depths: Seq<u32>,
}

impl Frame {
    /// Both buffers hold one entry per pixel.
    pub open spec fn wf(self) -> bool {
        &&& self.width * self.height <= u32::MAX
        &&& self.pixels.len() == self.width * self.height
        &&& self.depths.len() == self.width * self.height
    }

    pub open spec fn in_bounds(self, x: int, y: int) -> bool {
        0 <= x < self.width && 0 <= y < self.height
    }

    /// The place of the pixel `(x, y)` in the two buffers.
    pub open spec fn index(self, x: int, y: int) -> int {
        y * self.width + x
    }

    /// The column of the pixel at place `k`.
    pub open spec fn col(self, k: int) -> int {
        k % (self.width as int)
    }

    /// The row of the pixel at place `k`.
    pub open spec fn row(self, k: int) -> int {
        k / (self.width as int)
    }

    /// The frame with every pixel set to `color` and every depth to
    /// `DEPTH_FAR`.
    pub open spec fn cleared(self, color: u32) -> Frame {
        Frame {
            pixels: Seq::new(self.pixels.len(), |k: int| color),
            depths: Seq::new(self.depths.len(), |k: int| DEPTH_FAR),
            ..self
        }
    }

    /// The frame after writing `color` to the pixel `(x, y)`, without a
    /// depth test. A position outside of the frame changes nothing.
    pub open spec fn with_pixel(self, x: int, y: int, color: u32) -> Frame {
        if self.in_bounds(x, y) {
            Frame { pixels: self.pixels.update(self.index(x, y), color), ..self }
        } else {
            self
        }
    }

    /// The frame after drawing the line segment from `(x0, y0)` to
    /// `(x1, y1)`: the pixels of the segment that lie in the frame take
    /// `color`, whatever their depth; the depths stay as they are.
    pub open spec fn with_line(self, x0: int, y0: int, x1: int, y1: int, color: u32) -> Frame {
        Frame {
            pixels: Seq::new(
                self.pixels.len(),
                |k: int|
                    if on_line(x0, y0, x1, y1, self.col(k), self.row(k)) {
                        color
                    } else {
                        self.pixels[k]
                    },
            ),
            ..self
        }
    }

    /// Whether the triangle is drawn on the pixel at place `k`: it covers
    /// the pixel, and its depth there is less than the depth that the pixel
    /// has.
    pub open spec fn triangle_wins(self, t: ShadedTriangle, k: int) -> bool {
        &&& t.covers(self.col(k), self.row(k))
        &&& t.depth_at(self.col(k), self.row(k)) < self.depths[k]
    }

    /// The frame after drawing a filled triangle with a depth test on every
    /// pixel. Where the triangle is drawn the pixel takes its colour and the
    /// depth of the triangle at that pixel; every other pixel stays as it is.
    pub open spec fn with_triangle(self, t: ShadedTriangle) -> Frame {
        Frame {
            pixels: Seq::new(
                self.pixels.len(),
                |k: int|
                    if self.triangle_wins(t, k) {
                        t.color
                    } else {
                        self.pixels[k]
                    },
            ),
            depths: Seq::new(
                self.depths.len(),
                |k: int|
                    if self.triangle_wins(t, k) {
                        t.depth_at(self.col(k), self.row(k)) as u32
                    } else {
                        self.depths[k]
                    },
            ),
            ..self
        }
    }
}

/// A screen-space triangle with a depth at each corner and one colour.
pub struct ShadedTriangle {
    pub v0: ScreenPoint,
    pub v1: ScreenPoint,
    pub v2: ScreenPoint,
    pub z0: u32,
    pub z1: u32,
    pub z2: u32,
    pub color: u32,
}

impl ShadedTriangle {
    /// Whether the triangle covers the pixel `(x, y)`.
    pub open spec fn covers(self, x: int, y: int) -> bool {
        covers(self.v0, self.v1, self.v2, x, y)
    }

    /// The depth of the triangle at the pixel `(x, y)`.
    pub open spec fn depth_at(self, x: int, y: int) -> int {
        depth_at(self.v0, self.v1, self.v2, self.z0, self.z1, self.z2, x, y)
    }
}

/// Clearing leaves nothing of what was drawn before: two frames of the same
/// size are the same once they are cleared with the same colour.
pub proof fn lemma_clear_forgets(f: Frame, g: Frame, color: u32)
    requires
        f.wf(),
        g.wf(),
        f.width == g.width,
        f.height == g.height,
    ensures
        f.cleared(color) == g.cleared(color),
{
    assert(f.cleared(color).pixels =~= g.cleared(color).pixels);
    assert(f.cleared(color).depths =~= g.cleared(color).depths);
}

/// The depth of a triangle at a pixel that it covers lies between the
/// smallest and the largest of its corner depths, so it is a depth that a
/// pixel can hold.
pub proof fn lemma_covered_depth_in_range(t: ShadedTriangle, x: int, y: int)
    requires
        t.covers(x, y),
    ensures
        min3(t.z0 as int, t.z1 as int, t.z2 as int) <= t.depth_at(x, y) <= max3(
            t.z0 as int,
            t.z1 as int,
            t.z2 as int,
        ),
        0 <= t.depth_at(x, y) <= u32::MAX,
{
    lemma_weights_sum_to_one(t.v0, t.v1, t.v2, x, y);
    lemma_interpolate_between(
        weights_at(t.v0, t.v1, t.v2, x, y),
        t.z0 as int,
        t.z1 as int,
        t.z2 as int,
    );
}

/// The depth test makes the picture independent of the order of drawing:
/// two triangles drawn in either order leave the same pixels and the same
/// depths, as long as they do not have the same depth at a pixel that both
/// cover (there the one drawn first stays).
pub proof fn lemma_draw_order_independent(f: Frame, a: ShadedTriangle, b: ShadedTriangle)
    requires
        f.wf(),
        forall|x: int, y: int|
            f.in_bounds(x, y) && #[trigger] a.covers(x, y) && #[trigger] b.covers(x, y)
                ==> a.depth_at(x, y) != b.depth_at(x, y),
    ensures
        f.with_triangle(a).with_triangle(b) == f.with_triangle(b).with_triangle(a),
{
    let fa = f.with_triangle(a);
    let fb = f.with_triangle(b);
    let fab = fa.with_triangle(b);
    let fba = fb.with_triangle(a);
    assert forall|k: int| 0 <= k < f.pixels.len() implies fab.pixels[k] == fba.pixels[k]
        && fab.depths[k] == fba.depths[k] by {
        lemma_place_is_index(f.width, f.height, k);
        let x = f.col(k);
        let y = f.row(k);
        if a.covers(x, y) {
            lemma_covered_depth_in_range(a, x, y);
        }
        if b.covers(x, y) {
            lemma_covered_depth_in_range(b, x, y);
        }
        assert(fa.triangle_wins(b, k) == (b.covers(x, y) && b.depth_at(x, y) < fa.depths[k]));
        assert(fb.triangle_wins(a, k) == (a.covers(x, y) && a.depth_at(x, y) < fb.depths[k]));
    }
    assert(fab.pixels =~= fba.pixels);
    assert(fab.depths =~= fba.depths);
}

/// Where two triangles overlap, the nearer one shows, whichever of the two
/// is drawn first: a pixel that both cover, and at which the nearer triangle
/// is nearer than what the pixel held before, ends with the colour and the
/// depth of the nearer triangle.
pub proof fn lemma_nearer_triangle_shows(
    f: Frame,
    near: ShadedTriangle,
    far: ShadedTriangle,
    x: int,
    y: int,
)
    requires
        f.wf(),
        f.in_bounds(x, y),
        near.covers(x, y),
        far.covers(x, y),
        near.depth_at(x, y) < far.depth_at(x, y),
        near.depth_at(x, y) < f.depths[f.index(x, y)],
    ensures
        f.with_triangle(far).with_triangle(near).pixels[f.index(x, y)] == near.color,
        f.with_triangle(near).with_triangle(far).pixels[f.index(x, y)] == near.color,
        f.with_triangle(far).with_triangle(near).depths[f.index(x, y)] == near.depth_at(x, y),
        f.with_triangle(near).with_triangle(far).depths[f.index(x, y)] == near.depth_at(x, y),
{
    let k = f.index(x, y);
    lemma_index_in_range(f.width, f.height, x, y);
    lemma_index_row_col(f.width, x, y);
    lemma_covered_depth_in_range(near, x, y);
    lemma_covered_depth_in_range(far, x, y);
    let f1 = f.with_triangle(far);
    let f2 = f.with_triangle(near);
    assert(f.triangle_wins(near, k));
    assert(f1.triangle_wins(near, k));
    assert(!f2.triangle_wins(far, k));
}

/// The order in which the corners of a triangle are given does not matter,
/// as long as every corner keeps its depth: the triangle with its second and
/// third corner exchanged draws the same, and so does the one with its
/// corners taken in turn from the second one on.
pub proof fn lemma_corners_in_any_order(f: Frame, t: ShadedTriangle)
    ensures
        f.with_triangle(t) == f.with_triangle(
            (ShadedTriangle { v1: t.v2, v2: t.v1, z1: t.z2, z2: t.z1, ..t }),
        ),
        f.with_triangle(t) == f.with_triangle(
            (ShadedTriangle { v0: t.v1, v1: t.v2, v2: t.v0, z0: t.z1, z1: t.z2, z2: t.z0, ..t }),
        ),
{
    let swapped = ShadedTriangle { v1: t.v2, v2: t.v1, z1: t.z2, z2: t.z1, ..t };
    let turned = ShadedTriangle { v0: t.v1, v1: t.v2, v2: t.v0, z0: t.z1, z1: t.z2, z2: t.z0, ..t };
    let drawn = f.with_triangle(t);
    assert forall|k: int| 0 <= k < f.pixels.len() implies drawn.pixels[k] == f.with_triangle(
        swapped,
    ).pixels[k] && drawn.pixels[k] == f.with_triangle(turned).pixels[k] by {
        lemma_order_of_corners(t.v0, t.v1, t.v2, t.z0, t.z1, t.z2, f.col(k), f.row(k));
    }
    assert forall|k: int| 0 <= k < f.depths.len() implies drawn.depths[k] == f.with_triangle(
        swapped,
    ).depths[k] && drawn.depths[k] == f.with_triangle(turned).depths[k] by {
        lemma_order_of_corners(t.v0, t.v1, t.v2, t.z0, t.z1, t.z2, f.col(k), f.row(k));
    }
    assert(drawn.pixels =~= f.with_triangle(swapped).pixels);
    assert(drawn.depths =~= f.with_triangle(swapped).depths);
    assert(drawn.pixels =~= f.with_triangle(turned).pixels);
    assert(drawn.depths =~= f.with_triangle(turned).depths);
}

/// On a frame that has just been cleared, a triangle that is nearer than
/// `DEPTH_FAR` at all of its corners fills exactly the pixels that it
/// covers: they take its colour, and all others keep the colour that the
/// frame was cleared with.
pub proof fn lemma_triangle_fills_cleared_frame(
    f: Frame,
    background: u32,
    t: ShadedTriangle,
    x: int,
    y: int,
)
    requires
        f.wf(),
        f.in_bounds(x, y),
        t.z0 < DEPTH_FAR && t.z1 < DEPTH_FAR && t.z2 < DEPTH_FAR,
    ensures
        f.cleared(background).with_triangle(t).pixels[f.index(x, y)] == if t.covers(x, y) {
            t.color
        } else {
            background
        },
{
    lemma_index_in_range(f.width, f.height, x, y);
    lemma_index_row_col(f.width, x, y);
    if t.covers(x, y) {
        lemma_covered_depth_in_range(t, x, y);
    }
}

/// The place `y * width + x` of a pixel determines its row and its column.
pub proof fn lemma_index_row_col(width: nat, x: int, y: int)
    requires
        0 <= x < width,
        0 <= y,
    ensures
        (y * width + x) % (width as int) == x,
        (y * width + x) / (width as int) == y,
        0 <= y * width + x,
{
    let w = width as int;
    vstd::arithmetic::div_mod::lemma_fundamental_div_mod_converse(y * w + x, w, y, x);
    assert(0 <= y * w) by (nonlinear_arith)
        requires
            0 <= y,
            0 <= w,
    ;
}

/// A place in a buffer of `width * height` entries is that of the pixel at
/// its row and column.
pub proof fn lemma_place_is_index(width: nat, height: nat, k: int)
    requires
        0 <= k < width * height,
    ensures
        0 <= k % (width as int) < width,
        0 <= k / (width as int) < height,
        k == (k / (width as int)) * width + k % (width as int),
{
    let w = width as int;
    let h = height as int;
    assert(w > 0) by (nonlinear_arith)
        requires
            0 <= k < w * h,
            w >= 0,
    ;
    vstd::arithmetic::div_mod::lemma_fundamental_div_mod(k, w);
    vstd::arithmetic::div_mod::lemma_mod_bound(k, w);
    let q = k / w;
    let r = k % w;
    assert(k == w * q + r);
    assert(w * q == q * w) by (nonlinear_arith);
    assert(0 <= q < h) by (nonlinear_arith)
        requires
            k == w * q + r,
            0 <= r < w,
            0 <= k < w * h,
    ;
}

/// The pixels of a frame are in bounds of its buffers.
pub proof fn lemma_index_in_range(width: nat, height: nat, x: int, y: int)
    requires
        0 <= x < width,
        0 <= y < height,
    ensures
        0 <= y * width + x < width * height,
{
    let w = width as int;
    let h = height as int;
    assert(0 <= y * w + x < w * h) by (nonlinear_arith)
        requires
            0 <= x < w,
            0 <= y < h,
    ;
}

} // verus!
