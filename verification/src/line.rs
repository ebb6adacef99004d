//! Which pixels a rasterized line segment consists of, and why the
//! error-accumulating walk from one end to the other visits exactly those.
//!
//! The segment from `(x0, y0)` to `(x1, y1)` spans `dx` columns and `dy`
//! rows. Along its longer side it has one pixel in every column (or row):
//! the one nearest to the ideal line. A pixel that is `i` columns and `j`
//! rows away from the start lies off the ideal line by `j·dx - i·dy`, in
//! units in which half a pixel is `dx / 2` (or `dy / 2`); where two pixels
//! are equally near, the one with less progress along the shorter side is
//! taken.

use vstd::prelude::*;

verus! {

/// The distance between two coordinates.
pub open spec fn span(a: int, b: int) -> int {
    if a <= b {
        b - a
    } else {
        a - b
    }
}

/// Whether `x` lies between `a` and `b`, both included, in whichever order
/// they come.
pub open spec fn between(a: int, b: int, x: int) -> bool {
    (a <= x <= b) || (b <= x <= a)
}

/// Whether the pixel `i` columns and `j` rows away from the start of a
/// segment that spans `dx` columns and `dy` rows is the one nearest to the
/// ideal line in its column (where `dx >= dy`) or in its row.
pub open spec fn near_line(dx: int, dy: int, i: int, j: int) -> bool {
    if dx >= dy {
        dx == 0 || -dx <= 2 * (j * dx - i * dy) < dx
    } else {
        -dy <= 2 * (i * dy - j * dx) < dy
    }
}

/// Whether the pixel `(x, y)` belongs to the rasterized segment from
/// `(x0, y0)` to `(x1, y1)`.
pub open spec fn on_line(x0: int, y0: int, x1: int, y1: int, x: int, y: int) -> bool {
    &&& between(x0, x1, x)
    &&& between(y0, y1, y)
    &&& near_line(span(x0, x1), span(y0, y1), span(x0, x), span(y0, y))
}

/// How far the pixel `i` columns and `j` rows from the start has come along
/// the longer side of the segment.
pub open spec fn progress(dx: int, dy: int, i: int, j: int) -> int {
    if dx >= dy {
        i
    } else {
        j
    }
}

/// Whether the pixel `(x, y)` belongs to the part of the segment that comes
/// before `limit` steps along its longer side.
pub open spec fn on_line_before(
    x0: int,
    y0: int,
    x1: int,
    y1: int,
    limit: int,
    x: int,
    y: int,
) -> bool {
    &&& on_line(x0, y0, x1, y1, x, y)
    &&& progress(span(x0, x1), span(y0, y1), span(x0, x), span(y0, y)) < limit
}

/// The state of the walk along a segment: it has made `i` steps along the
/// columns and `j` along the rows, stands on a pixel of the segment, and
/// `err` holds the offset of that pixel from the ideal line.
pub open spec fn walking(dx: int, dy: int, i: int, j: int, err: int) -> bool {
    &&& 0 <= i <= dx
    &&& 0 <= j <= dy
    &&& err == dx - dy + (j * dx - i * dy)
    &&& near_line(dx, dy, i, j)
}

/// In a band that is one pixel wide there is one pixel only.
proof fn lemma_band_unique(d: int, a: int, j1: int, j2: int)
    requires
        d > 0,
        -d <= 2 * (j1 * d - a) < d,
        -d <= 2 * (j2 * d - a) < d,
    ensures
        j1 == j2,
{
    assert(j1 == j2) by (nonlinear_arith)
        requires
            d > 0,
            -d <= 2 * (j1 * d - a) < d,
            -d <= 2 * (j2 * d - a) < d,
    ;
}

/// The walk begins on the first pixel of the segment.
pub proof fn lemma_walk_begins(dx: int, dy: int)
    requires
        0 <= dx,
        0 <= dy,
    ensures
        walking(dx, dy, 0, 0, dx - dy),
{
    assert(0 * dx - 0 * dy == 0) by (nonlinear_arith);
    assert(0 * dy - 0 * dx == 0) by (nonlinear_arith);
}

/// When the walk has come to the end of the longer side, it has come to the
/// end of the shorter side too.
pub proof fn lemma_walk_ends_together(dx: int, dy: int, i: int, j: int, err: int)
    requires
        walking(dx, dy, i, j, err),
        progress(dx, dy, i, j) == progress(dx, dy, dx, dy),
    ensures
        i == dx,
        j == dy,
{
    if dx >= dy {
        if dx > 0 {
            assert(dy * dx - dx * dy == 0) by (nonlinear_arith);
            assert(j * dx - i * dy == j * dx - dx * dy);
            lemma_band_unique(dx, dx * dy, j, dy);
        }
    } else {
        assert(dx * dy - dy * dx == 0) by (nonlinear_arith);
        lemma_band_unique(dy, dy * dx, i, dx);
    }
}

/// One step of the walk. From a pixel of the segment that is not its last,
/// the walk moves on by one along the longer side, and along the shorter
/// side when the doubled error says so; it arrives on a pixel of the segment
/// again, with the error brought up to date.
pub proof fn lemma_walk_step(dx: int, dy: int, i: int, j: int, err: int)
    requires
        walking(dx, dy, i, j, err),
        !(i == dx && j == dy),
    ensures
        ({
            let step_x = 2 * err > -dy;
            let step_y = 2 * err < dx;
            let i2 = if step_x {
                i + 1
            } else {
                i
            };
            let j2 = if step_y {
                j + 1
            } else {
                j
            };
            let err2 = err - (if step_x {
                dy
            } else {
                0
            }) + (if step_y {
                dx
            } else {
                0
            });
            &&& walking(dx, dy, i2, j2, err2)
            &&& progress(dx, dy, i2, j2) == progress(dx, dy, i, j) + 1
        }),
{
    let f = j * dx - i * dy;
    let step_x = 2 * err > -dy;
    let step_y = 2 * err < dx;
    assert((j + 1) * dx == j * dx + dx) by (nonlinear_arith);
    assert((i + 1) * dy == i * dy + dy) by (nonlinear_arith);
    if dx >= dy {
        if i == dx {
            lemma_walk_ends_together(dx, dy, i, j, err);
        }
        assert(i < dx);
        if dx == dy {
            // On a diagonal the walk is never off the ideal line.
            assert(i * dx - i * dy == 0) by (nonlinear_arith)
                requires
                    dx == dy,
            ;
            lemma_band_unique(dx, i * dy, j, i);
        }
        assert(step_x);
        if step_y {
            assert(j < dy) by (nonlinear_arith)
                requires
                    0 <= i < dx,
                    0 <= j <= dy,
                    0 <= dy,
                    2 * (j * dx - i * dy) < 2 * dy - dx,
            ;
        }
    } else {
        if j == dy {
            lemma_walk_ends_together(dx, dy, i, j, err);
        }
        assert(j < dy);
        assert(step_y);
        if step_x {
            assert(i < dx) by (nonlinear_arith)
                requires
                    0 <= i <= dx,
                    0 <= j < dy,
                    0 <= dx < dy,
                    2 * (j * dx - i * dy) > dy - 2 * dx,
            ;
        }
    }
}

/// Both ends of a segment belong to it.
pub proof fn lemma_line_has_both_ends(x0: int, y0: int, x1: int, y1: int)
    ensures
        on_line(x0, y0, x1, y1, x0, y0),
        on_line(x0, y0, x1, y1, x1, y1),
{
    let dx = span(x0, x1);
    let dy = span(y0, y1);
    assert(0 * dx - 0 * dy == 0) by (nonlinear_arith);
    assert(0 * dy - 0 * dx == 0) by (nonlinear_arith);
    assert(dy * dx - dx * dy == 0) by (nonlinear_arith);
    assert(dx * dy - dy * dx == 0) by (nonlinear_arith);
}

/// A segment has one pixel only at each step along its longer side.
pub proof fn lemma_one_pixel_per_step(
    x0: int,
    y0: int,
    x1: int,
    y1: int,
    x: int,
    y: int,
    px: int,
    py: int,
)
    requires
        on_line(x0, y0, x1, y1, x, y),
        on_line(x0, y0, x1, y1, px, py),
        progress(span(x0, x1), span(y0, y1), span(x0, x), span(y0, y)) == progress(
            span(x0, x1),
            span(y0, y1),
            span(x0, px),
            span(y0, py),
        ),
    ensures
        px == x,
        py == y,
{
    let dx = span(x0, x1);
    let dy = span(y0, y1);
    if dx >= dy {
        if dx > 0 {
            lemma_band_unique(dx, span(x0, x) * dy, span(y0, y), span(y0, py));
        }
    } else {
        lemma_band_unique(dy, span(y0, y) * dx, span(x0, x), span(x0, px));
    }
}

} // verus!
