//! Exact barycentric coordinates of pixel-grid points with respect to a
//! screen-space triangle.
//!
//! A point `P` has weights `(u, v, w)` with respect to the triangle
//! `(v0, v1, v2)` when `P = u·v0 + v·v1 + w·v2` and `u + v + w = 1`. On the
//! pixel grid every coordinate is an integer, so the three weights are
//! rationals that share one denominator: twice the area of the triangle. They
//! are kept as three numerators over that denominator, which makes every
//! test on them exact.

use vstd::prelude::*;

verus! {

/// A point of the pixel grid. `x` grows to the right and `y` downwards; the
/// point may lie outside of the visible surface.
#[derive(Clone, Copy, Debug, PartialEq, Eq, Structural)]
pub struct ScreenPoint {
    pub x: i32,
    pub y: i32,
}

impl ScreenPoint {
    pub fn new(x: i32, y: i32) -> (p: ScreenPoint)
        ensures
            p.x == x,
            p.y == y,
    {
        ScreenPoint { x, y }
    }
}

/// The cross product `a × b` of two plane vectors.
pub open spec fn cross(ax: int, ay: int, bx: int, by: int) -> int {
    ax * by - ay * bx
}

/// Twice the signed area of the triangle `(v0, v1, v2)`: the cross product of
/// its edge vectors `v0 - v2` and `v1 - v2`. It is zero exactly when the
/// three points lie on one line.
pub open spec fn signed_area2(v0: ScreenPoint, v1: ScreenPoint, v2: ScreenPoint) -> int {
    cross(v0.x - v2.x, v0.y - v2.y, v1.x - v2.x, v1.y - v2.y)
}

/// Whether the triangle has no area.
pub open spec fn degenerate(v0: ScreenPoint, v1: ScreenPoint, v2: ScreenPoint) -> bool {
    signed_area2(v0, v1, v2) == 0
}

/// The smallest of three numbers.
pub open spec fn min3(a: int, b: int, c: int) -> int {
    if a <= b && a <= c {
        a
    } else if b <= c {
        b
    } else {
        c
    }
}

/// The largest of three numbers.
pub open spec fn max3(a: int, b: int, c: int) -> int {
    if a >= b && a >= c {
        a
    } else if b >= c {
        b
    } else {
        c
    }
}

/// Barycentric weights as mathematical integers: the weights themselves are
/// `u / den`, `v / den` and `w / den`.
pub struct Weights {
    pub u: int,
    pub v: int,
    pub w: int,
    pub den: int,
}

impl Weights {
    /// The denominator is positive and the three weights add up to one.
    pub open spec fn wf(self) -> bool {
        &&& self.den > 0
        &&& self.u + self.v + self.w == self.den
    }

    /// All three weights are at least zero: the point lies in the triangle,
    /// its edges and corners included.
    pub open spec fn inside(self) -> bool {
        &&& self.u >= 0
        &&& self.v >= 0
        &&& self.w >= 0
    }

    /// The value `u·z0 + v·z1 + w·z2`, rounded down to a whole number.
    pub open spec fn interpolate(self, z0: int, z1: int, z2: int) -> int {
        (self.u * z0 + self.v * z1 + self.w * z2) / self.den
    }
}

/// The weights of the point `(px, py)` with respect to a triangle that is not
/// degenerate, from the 2×2 system
/// `P - v2 = u·(v0 - v2) + v·(v1 - v2)` solved by Cramer's rule, with
/// `w = 1 - u - v`. The common denominator is made positive.
pub open spec fn weights_at(
    v0: ScreenPoint,
    v1: ScreenPoint,
    v2: ScreenPoint,
    px: int,
    py: int,
) -> Weights {
    let d = signed_area2(v0, v1, v2);
    let u = cross(px - v2.x, py - v2.y, v1.x - v2.x, v1.y - v2.y);
    let v = cross(v0.x - v2.x, v0.y - v2.y, px - v2.x, py - v2.y);
    if d > 0 {
        Weights { u: u, v: v, w: d - u - v, den: d }
    } else {
        Weights { u: -u, v: -v, w: u + v - d, den: -d }
    }
}

/// Whether the triangle covers the grid point `(px, py)`: the triangle has an
/// area and none of the point's weights is negative.
pub open spec fn covers(v0: ScreenPoint, v1: ScreenPoint, v2: ScreenPoint, px: int, py: int) -> bool {
    &&& !degenerate(v0, v1, v2)
    &&& weights_at(v0, v1, v2, px, py).inside()
}

/// The depth that a triangle with the corner depths `z0`, `z1`, `z2` has at
/// the grid point `(px, py)`.
pub open spec fn depth_at(
    v0: ScreenPoint,
    v1: ScreenPoint,
    v2: ScreenPoint,
    z0: u32,
    z1: u32,
    z2: u32,
    px: int,
    py: int,
) -> int {
    weights_at(v0, v1, v2, px, py).interpolate(z0 as int, z1 as int, z2 as int)
}

/// Barycentric weights of a grid point: three numerators over the common
/// denominator `den`.
#[derive(Clone, Copy, Debug)]
pub struct Barycentric {
    pub u: i128,
    pub v: i128,
    pub w: i128,
    pub den: i128,
}

impl View for Barycentric {
    type V = Weights;

    open spec fn view(&self) -> Weights {
        Weights { u: self.u as int, v: self.v as int, w: self.w as int, den: self.den as int }
    }
}

/// The largest denominator that a triangle of grid points can have.
pub open spec fn max_den() -> int {
    0x2_0000_0000_0000_0000
}

impl Barycentric {
    /// Whether the point lies in the triangle: all three weights are at
    /// least zero. Points on an edge or a corner are inside.
    pub fn is_inside(&self) -> (inside: bool)
        ensures
            inside == self@.inside(),
    {
        self.u >= 0 && self.v >= 0 && self.w >= 0
    }

    /// Interpolates three corner depths at a point inside the triangle,
    /// rounding down. The result lies between the smallest and the largest
    /// of the three.
    pub fn interpolate_depth(&self, z0: u32, z1: u32, z2: u32) -> (depth: u32)
        requires
            self@.wf(),
            self@.inside(),
            self@.den <= max_den(),
        ensures
            depth == self@.interpolate(z0 as int, z1 as int, z2 as int),
            min3(z0 as int, z1 as int, z2 as int) <= depth <= max3(z0 as int, z1 as int, z2 as int),
    {
        proof {
            lemma_interpolate_between(self@, z0 as int, z1 as int, z2 as int);
            lemma_products_bounded(self.u as int, self@.den, z0 as int);
            lemma_products_bounded(self.v as int, self@.den, z1 as int);
            lemma_products_bounded(self.w as int, self@.den, z2 as int);
        }
        let sum: i128 = self.u * (z0 as i128) + self.v * (z1 as i128) + self.w * (z2 as i128);
        let q: i128 = sum / self.den;
        q as u32
    }
}

proof fn lemma_products_bounded(n: int, den: int, z: int)
    requires
        0 <= n <= den,
        den <= max_den(),
        0 <= z <= u32::MAX,
    ensures
        0 <= n * z <= max_den() * 0xFFFF_FFFF,
{
    assert(0 <= n * z <= max_den() * 0xFFFF_FFFF) by (nonlinear_arith)
        requires
            0 <= n <= max_den(),
            0 <= z <= 0xFFFF_FFFF,
    ;
}

/// A weighted mean with weights that are not negative lies between the
/// smallest and the largest of the values, also after rounding down.
pub proof fn lemma_interpolate_between(b: Weights, z0: int, z1: int, z2: int)
    requires
        b.wf(),
        b.inside(),
    ensures
        min3(z0, z1, z2) <= b.interpolate(z0, z1, z2) <= max3(z0, z1, z2),
        b.interpolate(z0, z1, z2) * b.den <= b.u * z0 + b.v * z1 + b.w * z2,
        b.u * z0 + b.v * z1 + b.w * z2 < (b.interpolate(z0, z1, z2) + 1) * b.den,
{
    let lo = min3(z0, z1, z2);
    let hi = max3(z0, z1, z2);
    let sum = b.u * z0 + b.v * z1 + b.w * z2;
    let q = sum / b.den;
    assert(lo * b.den <= sum <= hi * b.den) by (nonlinear_arith)
        requires
            b.u >= 0,
            b.v >= 0,
            b.w >= 0,
            b.u + b.v + b.w == b.den,
            lo <= z0 <= hi,
            lo <= z1 <= hi,
            lo <= z2 <= hi,
            sum == b.u * z0 + b.v * z1 + b.w * z2,
    ;
    assert(q * b.den <= sum < (q + 1) * b.den && lo <= q <= hi) by (nonlinear_arith)
        requires
            b.den > 0,
            q == sum / b.den,
            lo * b.den <= sum <= hi * b.den,
    ;
}

/// Computes the weights of `p` with respect to the triangle `(v0, v1, v2)`,
/// or nothing when the triangle is degenerate and no weights exist.
pub fn barycentric_coordinates(
    p: ScreenPoint,
    v0: ScreenPoint,
    v1: ScreenPoint,
    v2: ScreenPoint,
) -> (weights: Option<Barycentric>)
    ensures
        weights is None <==> degenerate(v0, v1, v2),
        weights matches Some(b) ==> {
            &&& b@ == weights_at(v0, v1, v2, p.x as int, p.y as int)
            &&& b@.wf()
            &&& b@.den <= max_den()
        },
{
    let e0x: i128 = v0.x as i128 - v2.x as i128;
    let e0y: i128 = v0.y as i128 - v2.y as i128;
    let e1x: i128 = v1.x as i128 - v2.x as i128;
    let e1y: i128 = v1.y as i128 - v2.y as i128;
    let qx: i128 = p.x as i128 - v2.x as i128;
    let qy: i128 = p.y as i128 - v2.y as i128;
    proof {
        lemma_cross_bounded(e0x as int, e0y as int, e1x as int, e1y as int);
        lemma_cross_bounded(qx as int, qy as int, e1x as int, e1y as int);
        lemma_cross_bounded(e0x as int, e0y as int, qx as int, qy as int);
    }
    let d: i128 = e0x * e1y - e0y * e1x;
    if d == 0 {
        return None;
    }
    let u: i128 = qx * e1y - qy * e1x;
    let v: i128 = e0x * qy - e0y * qx;
    if d > 0 {
        Some(Barycentric { u: u, v: v, w: d - u - v, den: d })
    } else {
        Some(Barycentric { u: -u, v: -v, w: u + v - d, den: -d })
    }
}

proof fn lemma_cross_bounded(ax: int, ay: int, bx: int, by: int)
    requires
        -0x1_0000_0000 < ax < 0x1_0000_0000,
        -0x1_0000_0000 < ay < 0x1_0000_0000,
        -0x1_0000_0000 < bx < 0x1_0000_0000,
        -0x1_0000_0000 < by < 0x1_0000_0000,
    ensures
        -0x1_0000_0000_0000_0000 < ax * by < 0x1_0000_0000_0000_0000,
        -0x1_0000_0000_0000_0000 < ay * bx < 0x1_0000_0000_0000_0000,
        -max_den() < cross(ax, ay, bx, by) < max_den(),
{
    assert(-0x1_0000_0000_0000_0000 < ax * by < 0x1_0000_0000_0000_0000) by (nonlinear_arith)
        requires
            -0x1_0000_0000 < ax < 0x1_0000_0000,
            -0x1_0000_0000 < by < 0x1_0000_0000,
    ;
    assert(-0x1_0000_0000_0000_0000 < ay * bx < 0x1_0000_0000_0000_0000) by (nonlinear_arith)
        requires
            -0x1_0000_0000 < ay < 0x1_0000_0000,
            -0x1_0000_0000 < bx < 0x1_0000_0000,
    ;
}

/// The weights of every point add up to one: the three numerators add up to
/// the denominator, which is positive.
pub proof fn lemma_weights_sum_to_one(
    v0: ScreenPoint,
    v1: ScreenPoint,
    v2: ScreenPoint,
    px: int,
    py: int,
)
    requires
        !degenerate(v0, v1, v2),
    ensures
        weights_at(v0, v1, v2, px, py).wf(),
        weights_at(v0, v1, v2, px, py).den == if signed_area2(v0, v1, v2) > 0 {
            signed_area2(v0, v1, v2)
        } else {
            -signed_area2(v0, v1, v2)
        },
{
}

/// At a corner of the triangle the weight of that corner is one and the
/// other two are zero, so every corner is covered.
pub proof fn lemma_weights_at_corners(v0: ScreenPoint, v1: ScreenPoint, v2: ScreenPoint)
    requires
        !degenerate(v0, v1, v2),
    ensures
        ({
            let b = weights_at(v0, v1, v2, v0.x as int, v0.y as int);
            b.u == b.den && b.v == 0 && b.w == 0
        }),
        ({
            let b = weights_at(v0, v1, v2, v1.x as int, v1.y as int);
            b.u == 0 && b.v == b.den && b.w == 0
        }),
        ({
            let b = weights_at(v0, v1, v2, v2.x as int, v2.y as int);
            b.u == 0 && b.v == 0 && b.w == b.den
        }),
        covers(v0, v1, v2, v0.x as int, v0.y as int),
        covers(v0, v1, v2, v1.x as int, v1.y as int),
        covers(v0, v1, v2, v2.x as int, v2.y as int),
{
    let ax = v0.x - v2.x;
    let ay = v0.y - v2.y;
    let bx = v1.x - v2.x;
    let by = v1.y - v2.y;
    assert(cross(ax, ay, ax, ay) == 0) by (nonlinear_arith);
    assert(cross(bx, by, bx, by) == 0) by (nonlinear_arith);
    assert(cross(0, 0, bx, by) == 0) by (nonlinear_arith);
    assert(cross(ax, ay, 0, 0) == 0) by (nonlinear_arith);
}

/// The weights solve the system that defines them: the point is the
/// weighted sum of the three corners.
pub proof fn lemma_weights_reproduce_point(
    v0: ScreenPoint,
    v1: ScreenPoint,
    v2: ScreenPoint,
    px: int,
    py: int,
)
    requires
        !degenerate(v0, v1, v2),
    ensures
        ({
            let b = weights_at(v0, v1, v2, px, py);
            &&& b.den * px == b.u * v0.x + b.v * v1.x + b.w * v2.x
            &&& b.den * py == b.u * v0.y + b.v * v1.y + b.w * v2.y
        }),
{
    let ax = v0.x - v2.x;
    let ay = v0.y - v2.y;
    let bx = v1.x - v2.x;
    let by = v1.y - v2.y;
    let qx = px - v2.x;
    let qy = py - v2.y;
    let d = cross(ax, ay, bx, by);
    let u = cross(qx, qy, bx, by);
    let v = cross(ax, ay, qx, qy);
    // Cramer's rule in the frame that has v2 as its origin.
    lemma_cramer(ax, ay, bx, by, qx, qy);
    let w = d - u - v;
    let x0 = v0.x as int;
    let x1 = v1.x as int;
    let x2 = v2.x as int;
    let y0 = v0.y as int;
    let y1 = v1.y as int;
    let y2 = v2.y as int;
    assert(d * px == u * x0 + v * x1 + w * x2) by (nonlinear_arith)
        requires
            d * qx == u * ax + v * bx,
            qx == px - x2,
            ax == x0 - x2,
            bx == x1 - x2,
            w == d - u - v,
    ;
    assert(d * py == u * y0 + v * y1 + w * y2) by (nonlinear_arith)
        requires
            d * qy == u * ay + v * by,
            qy == py - y2,
            ay == y0 - y2,
            by == y1 - y2,
            w == d - u - v,
    ;
    if d < 0 {
        assert((-d) * px == (-u) * x0 + (-v) * x1 + (-w) * x2) by (nonlinear_arith)
            requires
                d * px == u * x0 + v * x1 + w * x2,
        ;
        assert((-d) * py == (-u) * y0 + (-v) * y1 + (-w) * y2) by (nonlinear_arith)
            requires
                d * py == u * y0 + v * y1 + w * y2,
        ;
    }
}

/// The weights belong to the corners, not to their places in the list:
/// with the second and the third corner exchanged, every corner keeps its
/// weight.
pub proof fn lemma_weights_swap_corners(
    v0: ScreenPoint,
    v1: ScreenPoint,
    v2: ScreenPoint,
    px: int,
    py: int,
)
    ensures
        degenerate(v0, v2, v1) == degenerate(v0, v1, v2),
        !degenerate(v0, v1, v2) ==> ({
            let b = weights_at(v0, v1, v2, px, py);
            weights_at(v0, v2, v1, px, py) == (Weights { u: b.u, v: b.w, w: b.v, den: b.den })
        }),
{
    let ax = v0.x - v2.x;
    let ay = v0.y - v2.y;
    let bx = v1.x - v2.x;
    let by = v1.y - v2.y;
    let qx = px - v2.x;
    let qy = py - v2.y;
    // Seen from the other corner, the same vectors are `a - b`, `-b` and
    // `q - b`.
    assert(cross(ax - bx, ay - by, -bx, -by) == -cross(ax, ay, bx, by)) by (nonlinear_arith);
    assert(cross(qx - bx, qy - by, -bx, -by) == -cross(qx, qy, bx, by)) by (nonlinear_arith);
    lemma_product_of_differences(ax, bx, qy, by);
    lemma_product_of_differences(ay, by, qx, bx);
    assert(by * bx == bx * by) by (nonlinear_arith);
    assert(by * qx == qx * by) by (nonlinear_arith);
    assert(bx * qy == qy * bx) by (nonlinear_arith);
    assert(v0.x - v1.x == ax - bx && v0.y - v1.y == ay - by);
    assert(v2.x - v1.x == -bx && v2.y - v1.y == -by);
    assert(px - v1.x == qx - bx && py - v1.y == qy - by);
}

/// With the corners taken in turn, from the second one on, every corner
/// keeps its weight as well.
pub proof fn lemma_weights_rotate_corners(
    v0: ScreenPoint,
    v1: ScreenPoint,
    v2: ScreenPoint,
    px: int,
    py: int,
)
    ensures
        degenerate(v1, v2, v0) == degenerate(v0, v1, v2),
        !degenerate(v0, v1, v2) ==> ({
            let b = weights_at(v0, v1, v2, px, py);
            weights_at(v1, v2, v0, px, py) == (Weights { u: b.v, v: b.w, w: b.u, den: b.den })
        }),
{
    let ax = v0.x - v2.x;
    let ay = v0.y - v2.y;
    let bx = v1.x - v2.x;
    let by = v1.y - v2.y;
    let qx = px - v2.x;
    let qy = py - v2.y;
    // Seen from the first corner, the vectors to the second, to the third
    // and to the point are `b - a`, `-a` and `q - a`.
    assert(cross(bx - ax, by - ay, -ax, -ay) == cross(ax, ay, bx, by)) by (nonlinear_arith);
    assert(cross(qx - ax, qy - ay, -ax, -ay) == cross(ax, ay, qx, qy)) by (nonlinear_arith);
    lemma_product_of_differences(bx, ax, qy, ay);
    lemma_product_of_differences(by, ay, qx, ax);
    assert(ay * ax == ax * ay) by (nonlinear_arith);
    assert(bx * qy == qy * bx) by (nonlinear_arith);
    assert(by * qx == qx * by) by (nonlinear_arith);
    assert(bx * ay == ay * bx) by (nonlinear_arith);
    assert(by * ax == ax * by) by (nonlinear_arith);
    assert(v1.x - v0.x == bx - ax && v1.y - v0.y == by - ay);
    assert(v2.x - v0.x == -ax && v2.y - v0.y == -ay);
    assert(px - v0.x == qx - ax && py - v0.y == qy - ay);
}

/// A triangle covers the same points, and has the same depth at each of
/// them, in whichever order its corners are given, as long as every corner
/// keeps its depth.
pub proof fn lemma_order_of_corners(
    v0: ScreenPoint,
    v1: ScreenPoint,
    v2: ScreenPoint,
    z0: u32,
    z1: u32,
    z2: u32,
    px: int,
    py: int,
)
    ensures
        covers(v0, v2, v1, px, py) == covers(v0, v1, v2, px, py),
        covers(v1, v2, v0, px, py) == covers(v0, v1, v2, px, py),
        !degenerate(v0, v1, v2) ==> {
            &&& depth_at(v0, v2, v1, z0, z2, z1, px, py) == depth_at(v0, v1, v2, z0, z1, z2, px, py)
            &&& depth_at(v1, v2, v0, z1, z2, z0, px, py) == depth_at(v0, v1, v2, z0, z1, z2, px, py)
        },
{
    lemma_weights_swap_corners(v0, v1, v2, px, py);
    lemma_weights_rotate_corners(v0, v1, v2, px, py);
}

/// A point that the triangle covers lies in the bounding box of its corners.
pub proof fn lemma_covered_in_bounding_box(
    v0: ScreenPoint,
    v1: ScreenPoint,
    v2: ScreenPoint,
    px: int,
    py: int,
)
    requires
        covers(v0, v1, v2, px, py),
    ensures
        min3(v0.x as int, v1.x as int, v2.x as int) <= px <= max3(
            v0.x as int,
            v1.x as int,
            v2.x as int,
        ),
        min3(v0.y as int, v1.y as int, v2.y as int) <= py <= max3(
            v0.y as int,
            v1.y as int,
            v2.y as int,
        ),
{
    let b = weights_at(v0, v1, v2, px, py);
    lemma_weights_reproduce_point(v0, v1, v2, px, py);
    lemma_mean_between(b, v0.x as int, v1.x as int, v2.x as int, px);
    lemma_mean_between(b, v0.y as int, v1.y as int, v2.y as int, py);
}

/// Multiplies out `(a - b) * (c - d)`.
proof fn lemma_product_of_differences(a: int, b: int, c: int, d: int)
    ensures
        (a - b) * (c - d) == a * c - a * d - b * c + b * d,
{
    assert((a - b) * (c - d) == a * c - a * d - b * c + b * d) by (nonlinear_arith);
}

/// Rearranges a product of three factors.
proof fn lemma_mul3(a: int, b: int, c: int)
    ensures
        (a * b) * c == (a * c) * b,
        (a * b) * c == (b * c) * a,
{
    assert((a * b) * c == (a * c) * b) by (nonlinear_arith);
    assert((a * b) * c == (b * c) * a) by (nonlinear_arith);
}

/// Cramer's rule for the system `q = u·a + v·b` in the plane, cleared of its
/// denominator `a × b`.
proof fn lemma_cramer(ax: int, ay: int, bx: int, by: int, qx: int, qy: int)
    ensures
        cross(ax, ay, bx, by) * qx == cross(qx, qy, bx, by) * ax + cross(ax, ay, qx, qy) * bx,
        cross(ax, ay, bx, by) * qy == cross(qx, qy, bx, by) * ay + cross(ax, ay, qx, qy) * by,
{
    assert((ax * by - ay * bx) * qx == (ax * by) * qx - (ay * bx) * qx) by (nonlinear_arith);
    assert((qx * by - qy * bx) * ax == (qx * by) * ax - (qy * bx) * ax) by (nonlinear_arith);
    assert((ax * qy - ay * qx) * bx == (ax * qy) * bx - (ay * qx) * bx) by (nonlinear_arith);
    lemma_mul3(ax, by, qx);
    lemma_mul3(qx, by, ax);
    lemma_mul3(qy, bx, ax);
    lemma_mul3(ax, qy, bx);
    lemma_mul3(ay, qx, bx);
    lemma_mul3(ay, bx, qx);
    assert((ax * by) * qx == (qx * by) * ax);
    assert((qy * bx) * ax == (ax * qy) * bx);
    assert((ay * qx) * bx == (ay * bx) * qx);

    assert((ax * by - ay * bx) * qy == (ax * by) * qy - (ay * bx) * qy) by (nonlinear_arith);
    assert((qx * by - qy * bx) * ay == (qx * by) * ay - (qy * bx) * ay) by (nonlinear_arith);
    assert((ax * qy - ay * qx) * by == (ax * qy) * by - (ay * qx) * by) by (nonlinear_arith);
    lemma_mul3(ax, by, qy);
    lemma_mul3(ax, qy, by);
    lemma_mul3(ay, bx, qy);
    lemma_mul3(qy, bx, ay);
    lemma_mul3(qx, by, ay);
    lemma_mul3(ay, qx, by);
    assert((ax * by) * qy == (ax * qy) * by);
    assert((ay * bx) * qy == (qy * bx) * ay);
    assert((qx * by) * ay == (ay * qx) * by);
}

proof fn lemma_mean_between(b: Weights, c0: int, c1: int, c2: int, p: int)
    requires
        b.wf(),
        b.inside(),
        b.den * p == b.u * c0 + b.v * c1 + b.w * c2,
    ensures
        min3(c0, c1, c2) <= p <= max3(c0, c1, c2),
{
    let lo = min3(c0, c1, c2);
    let hi = max3(c0, c1, c2);
    assert(lo <= p <= hi) by (nonlinear_arith)
        requires
            b.u >= 0,
            b.v >= 0,
            b.w >= 0,
            b.den > 0,
            b.u + b.v + b.w == b.den,
            lo <= c0 <= hi,
            lo <= c1 <= hi,
            lo <= c2 <= hi,
            b.den * p == b.u * c0 + b.v * c1 + b.w * c2,
    ;
}

} // verus!
