//! The renderer: a pixel buffer with a depth buffer, and the primitives
//! that draw into them.

use crate::barycentric::{
    barycentric_coordinates, covers, degenerate, lemma_covered_in_bounding_box, max3, min3,
    ScreenPoint,
};
use crate::frame::{
    lemma_index_in_range, lemma_index_row_col, lemma_place_is_index, Frame, ShadedTriangle,
    DEPTH_FAR, OPAQUE_BLACK,
};
use crate::line::{
    lemma_one_pixel_per_step, lemma_walk_begins, lemma_walk_step, on_line, on_line_before,
    progress, span, walking,
};
use vstd::prelude::*;

verus! {

fn smallest(a: i32, b: i32, c: i32) -> (m: i32)
    ensures
        m == min3(a as int, b as int, c as int),
{
    if a <= b && a <= c {
        a
    } else if b <= c {
        b
    } else {
        c
    }
}

fn largest(a: i32, b: i32, c: i32) -> (m: i32)
    ensures
        m == max3(a as int, b as int, c as int),
{
    if a >= b && a >= c {
        a
    } else if b >= c {
        b
    } else {
        c
    }
}

/// A pixel buffer with a depth buffer of the same layout.
pub struct Renderer {
    width: u32,
    height: u32,
    framebuffer: Vec<u32>,
    z_buffer: Vec<u32>,
}

impl View for Renderer {
    type V = Frame;

    closed spec fn view(&self) -> Frame {
        Frame {
            width: self.width as nat,
            height: self.height as nat,
            pixels: self.framebuffer@,
            depths: self.z_buffer@,
        }
    }
}

impl Renderer {
    /// Both buffers hold one entry per pixel.
    pub open spec fn wf(&self) -> bool {
        self@.wf()
    }

    /// A renderer of `width` by `height` pixels, all of them opaque black
    /// and infinitely far.
    pub fn new(width: u32, height: u32) -> (r: Renderer)
        requires
            width * height <= u32::MAX,
        ensures
            r.wf(),
            r@.width == width,
            r@.height == height,
            r@.pixels == Seq::new((width * height) as nat, |k: int| OPAQUE_BLACK),
            r@.depths == Seq::new((width * height) as nat, |k: int| DEPTH_FAR),
    {
        let n: usize = (width * height) as usize;
        let framebuffer: Vec<u32> = vec![OPAQUE_BLACK; n];
        let z_buffer: Vec<u32> = vec![DEPTH_FAR; n];
        let r = Renderer { width, height, framebuffer, z_buffer };
        assert(r@.pixels =~= Seq::new((width * height) as nat, |k: int| OPAQUE_BLACK));
        assert(r@.depths =~= Seq::new((width * height) as nat, |k: int| DEPTH_FAR));
        r
    }

    /// The pixels, row after row from the top, `width * height` of them.
    pub fn get_framebuffer(&self) -> (pixels: &[u32])
        ensures
            pixels@ == self@.pixels,
    {
        self.framebuffer.as_slice()
    }

    /// The depths, in the layout of the pixels.
    pub fn get_depth_buffer(&self) -> (depths: &[u32])
        ensures
            depths@ == self@.depths,
    {
        self.z_buffer.as_slice()
    }

    /// The width and the height, in pixels.
    pub fn get_dimension(&self) -> (dimension: (u32, u32))
        ensures
            dimension.0 == self@.width,
            dimension.1 == self@.height,
    {
        (self.width, self.height)
    }

    /// Sets every pixel to `color` and every depth to `DEPTH_FAR`.
    pub fn clear(&mut self, color: u32)
        requires
            old(self).wf(),
        ensures
            final(self)@ == old(self)@.cleared(color),
            final(self).wf(),
    {
        let n = self.framebuffer.len();
        let mut i: usize = 0;
        while i < n
            invariant
                self.wf(),
                self@.width == old(self)@.width,
                self@.height == old(self)@.height,
                n == self.framebuffer.len(),
                i <= n,
                forall|k: int| 0 <= k < i ==> self.framebuffer@[k] == color,
                forall|k: int| 0 <= k < i ==> self.z_buffer@[k] == DEPTH_FAR,
            decreases n - i,
        {
            self.framebuffer[i] = color;
            self.z_buffer[i] = DEPTH_FAR;
            i = i + 1;
        }
        assert(self@.pixels =~= old(self)@.cleared(color).pixels);
        assert(self@.depths =~= old(self)@.cleared(color).depths);
    }

    /// Writes `color` to the pixel `(x, y)`. A position outside of the
    /// surface is ignored.
    pub fn set_pixel(&mut self, x: u32, y: u32, color: u32)
        requires
            old(self).wf(),
        ensures
            final(self)@ == old(self)@.with_pixel(x as int, y as int, color),
            final(self).wf(),
    {
        if x < self.width && y < self.height {
            proof {
                lemma_index_in_range(self@.width, self@.height, x as int, y as int);
            }
            let index: usize = (y * self.width + x) as usize;
            self.framebuffer[index] = color;
        }
    }

    /// Writes `color` to the pixel `(x, y)` if it lies on the surface.
    fn plot(&mut self, x: i64, y: i64, color: u32)
        requires
            old(self).wf(),
        ensures
            final(self)@ == old(self)@.with_pixel(x as int, y as int, color),
            final(self).wf(),
    {
        if 0 <= x && x < self.width as i64 && 0 <= y && y < self.height as i64 {
            self.set_pixel(x as u32, y as u32, color);
        }
    }

    /// Draws the line segment from `(x0, y0)` to `(x1, y1)`, both ends
    /// included, one pixel wide and without a depth test. The walk goes from
    /// the first end to the second, one pixel per step along the longer side
    /// of the segment, and keeps to the pixels nearest to the ideal line.
    /// Parts outside of the surface are left out.
    pub fn draw_line(&mut self, x0: i32, y0: i32, x1: i32, y1: i32, color: u32)
        requires
            old(self).wf(),
        ensures
            final(self)@ == old(self)@.with_line(
                x0 as int,
                y0 as int,
                x1 as int,
                y1 as int,
                color,
            ),
            final(self).wf(),
    {
        let ghost start = self@;
        let ghost n = start.pixels.len() as int;
        let dx: i64 = if x0 <= x1 {
            x1 as i64 - x0 as i64
        } else {
            x0 as i64 - x1 as i64
        };
        let dy: i64 = if y0 <= y1 {
            y1 as i64 - y0 as i64
        } else {
            y0 as i64 - y1 as i64
        };
        let sx: i64 = if x0 < x1 {
            1
        } else {
            -1
        };
        let sy: i64 = if y0 < y1 {
            1
        } else {
            -1
        };
        let mut err: i64 = dx - dy;
        let mut x: i64 = x0 as i64;
        let mut y: i64 = y0 as i64;
        let ghost mut i: int = 0;
        let ghost mut j: int = 0;
        proof {
            lemma_walk_begins(dx as int, dy as int);
        }
        loop
            invariant_except_break
                self.wf(),
                start.wf(),
                n == start.pixels.len(),
                self@.width == start.width,
                self@.height == start.height,
                self@.depths == start.depths,
                self@.pixels.len() == n,
                dx == span(x0 as int, x1 as int),
                dy == span(y0 as int, y1 as int),
                sx == (if x0 < x1 {
                    1i64
                } else {
                    -1i64
                }),
                sy == (if y0 < y1 {
                    1i64
                } else {
                    -1i64
                }),
                walking(dx as int, dy as int, i, j, err as int),
                x == x0 + sx * i,
                y == y0 + sy * j,
                forall|k: int|
                    0 <= k < n ==> #[trigger] self@.pixels[k] == (if on_line_before(
                        x0 as int,
                        y0 as int,
                        x1 as int,
                        y1 as int,
                        progress(dx as int, dy as int, i, j),
                        start.col(k),
                        start.row(k),
                    ) {
                        color
                    } else {
                        start.pixels[k]
                    }),
            ensures
                self.wf(),
                self@ == start.with_line(x0 as int, y0 as int, x1 as int, y1 as int, color),
            decreases (dx - i) + (dy - j),
        {
            let ghost before = self@;
            let ghost here = progress(dx as int, dy as int, i, j);
            proof {
                assert((sx == 1 ==> sx * i == i) && (sx == -1 ==> sx * i == -i))
                    by (nonlinear_arith);
                assert((sy == 1 ==> sy * j == j) && (sy == -1 ==> sy * j == -j))
                    by (nonlinear_arith);
                assert(span(x0 as int, x as int) == i);
                assert(span(y0 as int, y as int) == j);
                assert(on_line(x0 as int, y0 as int, x1 as int, y1 as int, x as int, y as int));
            }
            self.plot(x, y, color);
            proof {
                // The pixels drawn so far are those of the segment up to
                // and including this step.
                assert forall|k: int| 0 <= k < n implies #[trigger] self@.pixels[k] == (
                if on_line_before(
                    x0 as int,
                    y0 as int,
                    x1 as int,
                    y1 as int,
                    here + 1,
                    start.col(k),
                    start.row(k),
                ) {
                    color
                } else {
                    start.pixels[k]
                }) by {
                    lemma_place_is_index(start.width, start.height, k);
                    let c = start.col(k);
                    let r = start.row(k);
                    if c == x && r == y {
                        assert(before.in_bounds(x as int, y as int));
                        assert(k == before.index(x as int, y as int));
                    } else {
                        if before.in_bounds(x as int, y as int) {
                            lemma_index_row_col(start.width, x as int, y as int);
                            lemma_index_in_range(start.width, start.height, x as int, y as int);
                            assert(k != before.index(x as int, y as int));
                        }
                        assert(self@.pixels[k] == before.pixels[k]);
                        if on_line(x0 as int, y0 as int, x1 as int, y1 as int, c, r) && progress(
                            dx as int,
                            dy as int,
                            span(x0 as int, c),
                            span(y0 as int, r),
                        ) == here {
                            lemma_one_pixel_per_step(
                                x0 as int,
                                y0 as int,
                                x1 as int,
                                y1 as int,
                                x as int,
                                y as int,
                                c,
                                r,
                            );
                        }
                    }
                }
            }
            if x == x1 as i64 && y == y1 as i64 {
                proof {
                    assert(i == dx && j == dy);
                    assert(self@.pixels =~= start.with_line(
                        x0 as int,
                        y0 as int,
                        x1 as int,
                        y1 as int,
                        color,
                    ).pixels);
                }
                break ;
            }
            proof {
                assert(!(i == dx && j == dy));
                lemma_walk_step(dx as int, dy as int, i, j, err as int);
            }
            let e2: i64 = 2 * err;
            if e2 > -dy {
                err = err - dy;
                x = x + sx;
                proof {
                    assert(sx * (i + 1) == sx * i + sx) by (nonlinear_arith);
                    i = i + 1;
                }
            }
            if e2 < dx {
                err = err + dx;
                y = y + sy;
                proof {
                    assert(sy * (j + 1) == sy * j + sy) by (nonlinear_arith);
                    j = j + 1;
                }
            }
        }
    }

    /// Draws a filled triangle. A pixel is covered when none of its three
    /// barycentric weights is negative, so the edges and corners belong to
    /// the triangle. A covered pixel is drawn when the depth interpolated
    /// from `z0`, `z1`, `z2` is less than the depth that the pixel has; it
    /// then takes that depth and `color`. A triangle without area draws
    /// nothing, and so do the parts outside of the surface.
    pub fn draw_triangle(
        &mut self,
        v0: ScreenPoint,
        v1: ScreenPoint,
        v2: ScreenPoint,
        z0: u32,
        z1: u32,
        z2: u32,
        color: u32,
    )
        requires
            old(self).wf(),
        ensures
            final(self)@ == old(self)@.with_triangle(
                (ShadedTriangle { v0, v1, v2, z0, z1, z2, color }),
            ),
            final(self).wf(),
    {
        let ghost start = self@;
        let ghost t = ShadedTriangle { v0, v1, v2, z0, z1, z2, color };
        let ghost target = start.with_triangle(t);
        let min_x = smallest(v0.x, v1.x, v2.x);
        let max_x = largest(v0.x, v1.x, v2.x);
        let min_y = smallest(v0.y, v1.y, v2.y);
        let max_y = largest(v0.y, v1.y, v2.y);
        let width = self.width;
        let height = self.height;
        let n = self.framebuffer.len();
        if barycentric_coordinates(v0, v0, v1, v2).is_none() || width == 0 || height == 0 || max_x
            < 0 || max_y < 0 || min_x as i64 >= width as i64 || min_y as i64 >= height as i64 {
            proof {
                assert forall|k: int| 0 <= k < n implies !start.triangle_wins(t, k) by {
                    lemma_place_is_index(start.width, start.height, k);
                    if covers(v0, v1, v2, start.col(k), start.row(k)) {
                        lemma_covered_in_bounding_box(v0, v1, v2, start.col(k), start.row(k));
                    }
                }
                assert(target.pixels =~= start.pixels);
                assert(target.depths =~= start.depths);
            }
            return ;
        }
        let x_lo: u32 = if min_x < 0 {
            0
        } else {
            min_x as u32
        };
        let x_hi: u32 = if max_x as i64 >= width as i64 {
            (width - 1) as u32
        } else {
            max_x as u32
        };
        let y_lo: u32 = if min_y < 0 {
            0
        } else {
            min_y as u32
        };
        let y_hi: u32 = if max_y as i64 >= height as i64 {
            (height - 1) as u32
        } else {
            max_y as u32
        };
        proof {
            // Outside of the clamped bounding box the triangle draws nothing.
            assert forall|k: int|
                0 <= k < n && !(x_lo <= start.col(k) <= x_hi && y_lo <= start.row(k)
                    <= y_hi) implies !start.triangle_wins(t, k) by {
                lemma_place_is_index(start.width, start.height, k);
                if covers(v0, v1, v2, start.col(k), start.row(k)) {
                    lemma_covered_in_bounding_box(v0, v1, v2, start.col(k), start.row(k));
                }
            }
        }
        let mut y: u32 = y_lo;
        while y <= y_hi
            invariant
                self.wf(),
                start.wf(),
                self@.width == start.width == width,
                self@.height == start.height == height,
                n == start.pixels.len(),
                t == (ShadedTriangle { v0, v1, v2, z0, z1, z2, color }),
                target == start.with_triangle(t),
                !degenerate(v0, v1, v2),
                x_lo <= x_hi < width,
                x_hi <= max_x,
                y_lo <= y <= y_hi + 1,
                y_hi < height,
                y_hi <= max_y,
                forall|k: int|
                    0 <= k < n && !(x_lo <= start.col(k) <= x_hi && y_lo <= start.row(k)
                        <= y_hi) ==> !start.triangle_wins(t, k),
                forall|k: int|
                    0 <= k < n ==> #[trigger] self@.pixels[k] == (if start.row(k) < y {
                        target.pixels[k]
                    } else {
                        start.pixels[k]
                    }),
                forall|k: int|
                    0 <= k < n ==> #[trigger] self@.depths[k] == (if start.row(k) < y {
                        target.depths[k]
                    } else {
                        start.depths[k]
                    }),
            decreases y_hi + 1 - y,
        {
            let mut x: u32 = x_lo;
            while x <= x_hi
                invariant
                    self.wf(),
                    start.wf(),
                    self@.width == start.width == width,
                    self@.height == start.height == height,
                    n == start.pixels.len(),
                    t == (ShadedTriangle { v0, v1, v2, z0, z1, z2, color }),
                target == start.with_triangle(t),
                    !degenerate(v0, v1, v2),
                    x_lo <= x <= x_hi + 1,
                    x_hi < width,
                    x_hi <= max_x,
                    y_lo <= y <= y_hi,
                    y_hi < height,
                    y_hi <= max_y,
                    forall|k: int|
                        0 <= k < n && !(x_lo <= start.col(k) <= x_hi && y_lo <= start.row(k)
                            <= y_hi) ==> !start.triangle_wins(t, k),
                    forall|k: int|
                        0 <= k < n ==> #[trigger] self@.pixels[k] == (if start.row(k) < y || (
                        start.row(k) == y && start.col(k) < x) {
                            target.pixels[k]
                        } else {
                            start.pixels[k]
                        }),
                    forall|k: int|
                        0 <= k < n ==> #[trigger] self@.depths[k] == (if start.row(k) < y || (
                        start.row(k) == y && start.col(k) < x) {
                            target.depths[k]
                        } else {
                            start.depths[k]
                        }),
                decreases x_hi + 1 - x,
            {
                let ghost before = self@;
                proof {
                    lemma_index_in_range(start.width, start.height, x as int, y as int);
                    lemma_index_row_col(start.width, x as int, y as int);
                }
                let index: usize = (y * width + x) as usize;
                let p = ScreenPoint { x: x as i32, y: y as i32 };
                match barycentric_coordinates(p, v0, v1, v2) {
                    Some(b) => {
                        if b.is_inside() {
                            let depth = b.interpolate_depth(z0, z1, z2);
                            if depth < self.z_buffer[index] {
                                self.z_buffer[index] = depth;
                                self.framebuffer[index] = color;
                            }
                        }
                    },
                    None => {},
                }
                proof {
                    assert(start.col(index as int) == x && start.row(index as int) == y);
                    assert(before.depths[index as int] == start.depths[index as int]);
                    assert(before.pixels[index as int] == start.pixels[index as int]);
                    assert forall|k: int| 0 <= k < n implies #[trigger] self@.pixels[k] == (
                    if start.row(k) < y || (start.row(k) == y && start.col(k) < x + 1) {
                        target.pixels[k]
                    } else {
                        start.pixels[k]
                    }) by {
                        lemma_place_is_index(start.width, start.height, k);
                        if k != index {
                            assert(self@.pixels[k] == before.pixels[k]);
                        }
                    }
                    assert forall|k: int| 0 <= k < n implies #[trigger] self@.depths[k] == (
                    if start.row(k) < y || (start.row(k) == y && start.col(k) < x + 1) {
                        target.depths[k]
                    } else {
                        start.depths[k]
                    }) by {
                        lemma_place_is_index(start.width, start.height, k);
                        if k != index {
                            assert(self@.depths[k] == before.depths[k]);
                        }
                    }
                }
                x = x + 1;
            }
            proof {
                assert forall|k: int| 0 <= k < n implies #[trigger] self@.pixels[k] == (
                if start.row(k) < y + 1 {
                    target.pixels[k]
                } else {
                    start.pixels[k]
                }) by {
                    if start.row(k) == y && start.col(k) > x_hi {
                        assert(!start.triangle_wins(t, k));
                    }
                }
                assert forall|k: int| 0 <= k < n implies #[trigger] self@.depths[k] == (
                if start.row(k) < y + 1 {
                    target.depths[k]
                } else {
                    start.depths[k]
                }) by {
                    if start.row(k) == y && start.col(k) > x_hi {
                        assert(!start.triangle_wins(t, k));
                    }
                }
            }
            y = y + 1;
        }
        proof {
            assert forall|k: int| 0 <= k < n implies self@.pixels[k] == target.pixels[k]
                && self@.depths[k] == target.depths[k] by {
                if start.row(k) > y_hi {
                    assert(!start.triangle_wins(t, k));
                }
            }
            assert(self@.pixels =~= target.pixels);
            assert(self@.depths =~= target.depths);
        }
    }
}

} // verus!
