//! Exact integer geometry.
//!
//! Points produced by the scanner live on half-pixel boundaries, so all line
//! geometry is carried out in *doubled* coordinates (units of half a pixel),
//! where every quantity of interest is an integer.  The staff refinement
//! stage needs positions along a unit direction vector; those are kept in
//! fixed point with 2^16 subdivisions per pixel, and every rounding step is
//! pinned exactly in the contracts (floor division, floor of a quotient by a
//! square root).

use vstd::prelude::*;

verus! {

/// Largest accepted image dimension, in pixels (a 65536-pixel side; a frame
/// beyond that could not be held in memory).  The bound keeps every derived
/// product inside 64 and 128 bit integers.
pub const MAX_DIM: usize = 0x1_0000;

/// Bound on doubled coordinates of points handed to the line geometry, in
/// half-pixel units (doubled points of a frame use at most twice `MAX_DIM`,
/// plus one for half-pixel offsets).
pub const MAX_COORD_D: i64 = 0x4_0000;

/// A point in doubled (half-pixel) image coordinates.
#[derive(Clone, Copy, Debug, PartialEq, Eq, Structural)]
pub struct PointD {
    pub x: i64,
    pub y: i64,
}

impl PointD {
    /// The point is within the doubled-coordinate range the library accepts.
    pub open spec fn in_range(self) -> bool {
        -MAX_COORD_D <= self.x <= MAX_COORD_D && -MAX_COORD_D <= self.y <= MAX_COORD_D
    }
}

/// An infinite line through two anchor points, in doubled coordinates.
#[derive(Clone, Copy, Debug, PartialEq, Eq, Structural)]
pub struct Line {
    pub a: PointD,
    pub b: PointD,
}

/// Dot product of `p - l.a` with the (unnormalised) normal of `l`.
///
/// The normal is `(dir.y, -dir.x)` for `dir = l.a - l.b`, as long as the
/// line's own direction; so this value is the signed distance from `p` to
/// `l` multiplied by the normal's length.
pub open spec fn spec_proj(l: Line, px: int, py: int) -> int {
    (px - l.a.x) * (l.a.y - l.b.y) + (py - l.a.y) * (l.b.x - l.a.x)
}

/// Squared length of the line's direction (and of its normal).
pub open spec fn spec_norm_sq(l: Line) -> int {
    (l.a.x - l.b.x) * (l.a.x - l.b.x) + (l.a.y - l.b.y) * (l.a.y - l.b.y)
}

impl Line {
    pub open spec fn in_range(self) -> bool {
        self.a.in_range() && self.b.in_range()
    }

    pub fn new(a: PointD, b: PointD) -> (l: Line)
        ensures
            l.a == a,
            l.b == b,
    {
        Line { a, b }
    }

    /// The unnormalised normal vector of the line.
    pub fn normal(&self) -> (n: PointD)
        requires
            self.in_range(),
        ensures
            n.x == self.a.y - self.b.y,
            n.y == self.b.x - self.a.x,
    {
        PointD { x: self.a.y - self.b.y, y: self.b.x - self.a.x }
    }

    /// Signed distance from `p` to the line, scaled by the length of the
    /// line's normal (so the result is exact).
    pub fn signed_distance_to_point(&self, p: &PointD) -> (r: i64)
        requires
            self.in_range(),
            p.in_range(),
        ensures
            r == spec_proj(*self, p.x as int, p.y as int),
            -0x80_0000_0000 <= r <= 0x80_0000_0000,
    {
        let dx = p.x - self.a.x;
        let dy = p.y - self.a.y;
        let nx = self.a.y - self.b.y;
        let ny = self.b.x - self.a.x;
        proof {
            lemma_abs_mul_le(dx as int, nx as int, 0x8_0000, 0x8_0000);
            lemma_abs_mul_le(dy as int, ny as int, 0x8_0000, 0x8_0000);
        }
        dx * nx + dy * ny
    }

    /// Absolute distance from `p` to the line, scaled by the length of the
    /// line's normal.
    pub fn distance_to_point(&self, p: &PointD) -> (r: i64)
        requires
            self.in_range(),
            p.in_range(),
        ensures
            r == abs_int(spec_proj(*self, p.x as int, p.y as int)),
            0 <= r <= 0x80_0000_0000,
    {
        let d = self.signed_distance_to_point(p);
        if d < 0 {
            -d
        } else {
            d
        }
    }
}

/// Absolute value over mathematical integers.
pub open spec fn abs_int(x: int) -> int {
    if x < 0 {
        -x
    } else {
        x
    }
}

/// A product is bounded by the product of the factors' bounds.
pub proof fn lemma_abs_mul_le(a: int, b: int, m: int, n: int)
    by (nonlinear_arith)
    requires
        -m <= a <= m,
        -n <= b <= n,
        0 <= m,
        0 <= n,
    ensures
        -(m * n) <= a * b <= m * n,
{
}

/// Floor of the square root of `x`, as a mathematical function.
pub open spec fn sqrt_floor(x: int) -> int {
    choose|r: int| 0 <= r && #[trigger] (r * r) <= x && (r + 1) * (r + 1) > x
}

/// A floor square root exists for every nonnegative integer.
pub proof fn lemma_sqrt_floor_exists(x: nat)
    ensures
        exists|r: int| 0 <= r && #[trigger] (r * r) <= x && (r + 1) * (r + 1) > x,
    decreases x,
{
    if x == 0 {
        let w: int = 0;
        assert(0 <= w && w * w <= x as int && (w + 1) * (w + 1) > x as int) by (nonlinear_arith)
            requires
                x == 0,
                w == 0;
    } else {
        lemma_sqrt_floor_exists((x - 1) as nat);
        let r0 = choose|r: int| 0 <= r && #[trigger] (r * r) <= x - 1 && (r + 1) * (r + 1) > x
            - 1;
        if (r0 + 1) * (r0 + 1) <= x {
            // x - 1 < (r0 + 1)^2 <= x forces x == (r0 + 1)^2.
            let r1 = r0 + 1;
            assert(r1 * r1 == x);
            assert((r1 + 1) * (r1 + 1) > x) by (nonlinear_arith)
                requires
                    r1 >= 0,
                    r1 * r1 == x;
            assert(0 <= r1 && r1 * r1 <= x && (r1 + 1) * (r1 + 1) > x);
        } else {
            assert(0 <= r0 && r0 * r0 <= x && (r0 + 1) * (r0 + 1) > x);
        }
    }
}

/// The floor square root is unique.
pub proof fn lemma_sqrt_floor_unique(x: int, r: int)
    requires
        0 <= r,
        r * r <= x,
        (r + 1) * (r + 1) > x,
    ensures
        r == sqrt_floor(x),
{
    lemma_sqrt_floor_exists(x as nat);
    let s = sqrt_floor(x);
    assert(0 <= s && s * s <= x && (s + 1) * (s + 1) > x);
    if r < s {
        assert((r + 1) * (r + 1) <= s * s) by (nonlinear_arith)
            requires
                0 <= r,
                r + 1 <= s;
        assert(false);
    }
    if s < r {
        assert((s + 1) * (s + 1) <= r * r) by (nonlinear_arith)
            requires
                0 <= s,
                s + 1 <= r;
        assert(false);
    }
}

/// Floor square root of a 128-bit integer, by binary search.
pub fn isqrt(x: u128) -> (r: u128)
    ensures
        r * r <= x,
        (r + 1) * (r + 1) > x,
        r < 0x1_0000_0000_0000_0000,
        r == sqrt_floor(x as int),
{
    let mut lo: u128 = 0;
    let mut hi: u128 = 0x1_0000_0000_0000_0000;
    proof {
        assert((hi as int) * (hi as int) > x as int);
    }
    while lo + 1 < hi
        invariant
            lo < hi <= 0x1_0000_0000_0000_0000,
            (lo as int) * (lo as int) <= x as int,
            (hi as int) * (hi as int) > x as int,
        decreases hi - lo,
    {
        let mid = lo + (hi - lo) / 2;
        if mid <= x / mid {
            // mid * mid <= x, avoiding any overflow in the comparison
            proof {
                vstd::arithmetic::div_mod::lemma_fundamental_div_mod(x as int, mid as int);
                assert((mid as int) * (mid as int) <= x as int) by (nonlinear_arith)
                    requires
                        0 < mid,
                        mid <= x as int / mid as int,
                        x as int == (mid as int) * (x as int / mid as int) + (x as int
                            % mid as int),
                        x as int % mid as int >= 0;
            }
            lo = mid;
        } else {
            proof {
                vstd::arithmetic::div_mod::lemma_fundamental_div_mod(x as int, mid as int);
                assert((mid as int) * (mid as int) > x as int) by (nonlinear_arith)
                    requires
                        0 < mid,
                        mid > x as int / mid as int,
                        x as int == (mid as int) * (x as int / mid as int) + (x as int
                            % mid as int),
                        (x as int % mid as int) < mid;
            }
            hi = mid;
        }
    }
    proof {
        lemma_sqrt_floor_unique(x as int, lo as int);
    }
    lo
}

/// Floor division of `n` by a positive divisor `d` (the mathematical
/// quotient, rounding toward negative infinity, as `/` means on `int`).
pub fn div_floor(n: i128, d: i128) -> (r: i128)
    requires
        0 < d <= 0x1_0000_0000_0000_0000,
        -0x1000_0000_0000_0000_0000_0000_0000_0000 <= n
            <= 0xfff_0000_0000_0000_0000_0000_0000_0000,
    ensures
        r == n as int / d as int,
        n >= 0 ==> 0 <= r <= n,
        n <= 0 ==> n <= r <= 0,
{
    if n >= 0 {
        proof {
            vstd::arithmetic::div_mod::lemma_div_is_ordered_by_denominator(n as int, 1, d as int);
        }
        n / d
    } else {
        let m = -n;
        let q = (m + d - 1) / d;
        proof {
            let qb = (m as int + d as int - 1) / (d as int);
            vstd::arithmetic::div_mod::lemma_fundamental_div_mod(m as int + d as int - 1, d as int);
            assert(qb <= m) by (nonlinear_arith)
                requires
                    (d as int) * qb + ((m as int + d as int - 1) % (d as int)) == m as int + d
                        as int - 1,
                    0 <= ((m as int + d as int - 1) % (d as int)),
                    d >= 1,
                    m >= 1;
        }
        proof {
            let mi = m as int;
            let di = d as int;
            let qi = (mi + di - 1) / di;
            vstd::arithmetic::div_mod::lemma_fundamental_div_mod(mi + di - 1, di);
            let r0 = (mi + di - 1) % di;
            assert(di * qi == mi + di - 1 - r0);
            assert(0 <= r0 < di);
            assert((-qi) * di == -(di * qi)) by (nonlinear_arith);
            // -m = (-q) * d + (d*q - m), with remainder in [0, d)
            vstd::arithmetic::div_mod::lemma_fundamental_div_mod_converse(
                -mi,
                di,
                -qi,
                di * qi - mi,
            );
        }
        -q
    }
}


/// Fixed-point scale for sub-pixel positions: 2^16 per pixel.
pub const FP_UNIT: i64 = 0x1_0000;

/// Bound on fixed-point coordinates of staff anchor points.
pub const MAX_COORD_FP: i64 = 0x1_0000_0000;

/// Bound on fixed-point staff widths.
pub const MAX_WIDTH_FP: i64 = 0x1_0000_0000;

/// Bound on the ruling parameter `t` (fixed-point pixels along the ruling).
pub const MAX_TIME_FP: i64 = 0x4_0000_0000_0000;

/// A point in 2^-16-pixel fixed point.
#[derive(Clone, Copy, Debug, PartialEq, Eq, Structural)]
pub struct PointFp {
    pub x: i64,
    pub y: i64,
}

impl PointFp {
    pub open spec fn in_range(self) -> bool {
        -MAX_COORD_FP <= self.x <= MAX_COORD_FP && -MAX_COORD_FP <= self.y <= MAX_COORD_FP
    }
}

/// A finite oriented ruling: a detected staff (or a stretch of one), with its
/// position, unit direction and length in 2^-16-pixel fixed point, and the
/// estimated thickness of its lines and of the spaces between them.
#[derive(Clone, Copy, Debug)]
pub struct Staff {
    pub pos: PointFp,
    pub dir: PointFp,
    pub length: i64,
    pub line_width: i64,
    pub space_width: i64,
}

/// One fixed-point component of the unit direction along `(dx, dy)`:
/// `d * 2^16 / sqrt(m)` rounded toward zero (zero for a degenerate ruling).
pub open spec fn spec_dir_fp(d: int, m: int) -> int {
    if m == 0 {
        0
    } else if d >= 0 {
        sqrt_floor((d * 0x1_0000) * (d * 0x1_0000) / m)
    } else {
        -sqrt_floor(((-d) * 0x1_0000) * ((-d) * 0x1_0000) / m)
    }
}

/// The staff built from two anchor points and the two width estimates: the
/// anchor `a`, the unit direction from `a` to `b` (fixed point, rounded
/// toward zero), and the distance between the anchors as the length.
pub open spec fn spec_staff_new(a: PointFp, b: PointFp, line_width: i64, space_width: i64) -> Staff {
    let dx = b.x - a.x;
    let dy = b.y - a.y;
    let m = dx * dx + dy * dy;
    Staff {
        pos: a,
        dir: PointFp { x: spec_dir_fp(dx as int, m) as i64, y: spec_dir_fp(dy as int, m) as i64 },
        length: sqrt_floor(m) as i64,
        line_width,
        space_width,
    }
}

/// The point at ruling parameter `t`: `pos + dir * t / 2^16`, with floor
/// division.
pub open spec fn spec_point_at(staff: Staff, t: int) -> PointFp {
    PointFp {
        x: (staff.pos.x + (staff.dir.x * t) / (FP_UNIT as int)) as i64,
        y: (staff.pos.y + (staff.dir.y * t) / (FP_UNIT as int)) as i64,
    }
}

/// Doubled offset index of perpendicular sample `j` of `num`: the samples
/// sit at `sep * k / 2` for `k = -num + 1, -num + 3, ...` when `num` is
/// even, and at whole multiples of `sep` when `num` is odd.
pub open spec fn spec_sample_k(num: int, j: int) -> int {
    2 * (j - num / 2) + (if num % 2 == 0 {
        1int
    } else {
        0int
    })
}

/// Position of perpendicular sample `j` of `num` at ruling parameter `t`:
/// the point at `t`, displaced along the ruling's normal by
/// `sep * k / 2` (fixed point, floor division).
pub open spec fn spec_perp_sample(staff: Staff, t: int, sep: int, num: int, j: int) -> PointFp {
    let p = spec_point_at(staff, t);
    let k = spec_sample_k(num, j);
    PointFp {
        x: (p.x + (staff.dir.y * sep * k) / (2 * FP_UNIT as int)) as i64,
        y: (p.y + ((-staff.dir.x) * sep * k) / (2 * FP_UNIT as int)) as i64,
    }
}

impl Staff {
    /// Field bounds under which all derived arithmetic stays in range.
    pub open spec fn wf(self) -> bool {
        &&& self.pos.in_range()
        &&& -FP_UNIT <= self.dir.x <= FP_UNIT
        &&& -FP_UNIT <= self.dir.y <= FP_UNIT
        &&& 0 <= self.length <= 4 * MAX_COORD_FP
        &&& 0 <= self.line_width <= MAX_WIDTH_FP
        &&& 0 <= self.space_width <= MAX_WIDTH_FP
    }

    /// Build a ruling from two anchor points and width estimates; exactly
    /// `spec_staff_new`.
    pub fn new(a: PointFp, b: PointFp, line_width: i64, space_width: i64) -> (r: Staff)
        requires
            a.in_range(),
            b.in_range(),
            0 <= line_width <= MAX_WIDTH_FP,
            0 <= space_width <= MAX_WIDTH_FP,
        ensures
            r == spec_staff_new(a, b, line_width, space_width),
            r.wf(),
    {
        let dx = b.x - a.x;
        let dy = b.y - a.y;
        proof {
            lemma_abs_mul_le(dx as int, dx as int, 0x2_0000_0000, 0x2_0000_0000);
            lemma_abs_mul_le(dy as int, dy as int, 0x2_0000_0000, 0x2_0000_0000);
            assert(dx as int * dx as int >= 0 && dy as int * dy as int >= 0) by (nonlinear_arith);
        }
        let m = (dx as i128) * (dx as i128) + (dy as i128) * (dy as i128);
        proof {
            assert(m <= 0x8_0000_0000_0000_0000);
            if m == 0 {
                lemma_sqrt_floor_unique(0, 0);
            }
        }
        if m == 0 {
            return Staff {
                pos: a,
                dir: PointFp { x: 0, y: 0 },
                length: 0,
                line_width,
                space_width,
            };
        }
        let lq = isqrt(m as u128);
        proof {
            // The length is at most 2^34: its square is at most m < 2^68.
            assert((lq as int) <= 0x4_0000_0000) by (nonlinear_arith)
                requires
                    (lq as int) * (lq as int) <= m,
                    m <= 0x8_0000_0000_0000_0000,
                    lq as int >= 0;
        }
        let length = lq as i64;
        let dir_x = dir_component(dx, m);
        let dir_y = dir_component(dy, m);
        Staff { pos: a, dir: PointFp { x: dir_x, y: dir_y }, length, line_width, space_width }
    }

    /// The staff-line separation: line width plus space width.
    pub fn line_sep(&self) -> (r: i64)
        requires
            self.wf(),
        ensures
            r == self.line_width + self.space_width,
    {
        self.line_width + self.space_width
    }

    /// The unit normal of the ruling (fixed point).
    pub fn normal(&self) -> (r: PointFp)
        requires
            self.wf(),
        ensures
            r.x == self.dir.y,
            r.y == -self.dir.x,
    {
        PointFp { x: self.dir.y, y: -self.dir.x }
    }

    /// Signed distance from a point to the ruling's carrier line, in fixed
    /// point: the dot product of `p - pos` with the unit normal, rescaled by
    /// 2^-16 (floor division).
    pub fn signed_distance_to_point(&self, p: &PointFp) -> (r: i64)
        requires
            self.wf(),
            p.in_range(),
        ensures
            r as int == ((p.x - self.pos.x) * self.dir.y + (p.y - self.pos.y) * (-self.dir.x)) / (
            FP_UNIT as int),
            -0x8_0000_0000_0000 <= r <= 0x8_0000_0000_0000,
    {
        proof {
            lemma_abs_mul_le(
                p.x as int - self.pos.x as int,
                self.dir.y as int,
                0x2_0000_0000,
                0x1_0000,
            );
            lemma_abs_mul_le(
                p.y as int - self.pos.y as int,
                -self.dir.x as int,
                0x2_0000_0000,
                0x1_0000,
            );
        }
        let dot = (p.x - self.pos.x) as i128 * (self.dir.y as i128) + (p.y - self.pos.y) as i128 * (
        (-self.dir.x) as i128);
        div_floor(dot, FP_UNIT as i128) as i64
    }

    /// Absolute distance from a point to the ruling's carrier line.
    pub fn distance_to_point(&self, p: &PointFp) -> (r: i64)
        requires
            self.wf(),
            p.in_range(),
        ensures
            r as int == abs_int(
                ((p.x - self.pos.x) * self.dir.y + (p.y - self.pos.y) * (-self.dir.x)) / (
                FP_UNIT as int),
            ),
    {
        let d = self.signed_distance_to_point(p);
        if d < 0 {
            -d
        } else {
            d
        }
    }

    /// The point at ruling parameter `t`; exactly `spec_point_at`.
    pub fn point_at_time(&self, t: i64) -> (r: PointFp)
        requires
            self.wf(),
            -MAX_TIME_FP <= t <= MAX_TIME_FP,
        ensures
            r == spec_point_at(*self, t as int),
            -0x8_0000_0000_0000 <= r.x <= 0x8_0000_0000_0000,
            -0x8_0000_0000_0000 <= r.y <= 0x8_0000_0000_0000,
    {
        proof {
            lemma_abs_mul_le(self.dir.x as int, t as int, 0x1_0000, MAX_TIME_FP as int);
            lemma_abs_mul_le(self.dir.y as int, t as int, 0x1_0000, MAX_TIME_FP as int);
        }
        let ox = div_floor((self.dir.x as i128) * (t as i128), FP_UNIT as i128);
        let oy = div_floor((self.dir.y as i128) * (t as i128), FP_UNIT as i128);
        PointFp { x: self.pos.x + (ox as i64), y: self.pos.y + (oy as i64) }
    }

    /// The perpendicular brightness-probe positions at ruling parameter `t`:
    /// `num_samples` points spaced `sample_sep` apart across the ruling,
    /// centred on it; exactly `spec_perp_sample` at each index.
    pub fn perpendicular_samples(&self, t: i64, num_samples: usize, sample_sep: i64) -> (r: Vec<
        PointFp,
    >)
        requires
            self.wf(),
            -MAX_TIME_FP <= t <= MAX_TIME_FP,
            1 <= num_samples <= 64,
            0 <= sample_sep <= 2 * MAX_WIDTH_FP,
        ensures
            r@.len() == num_samples,
            forall|j: int|
                0 <= j < num_samples ==> #[trigger] r@[j] == spec_perp_sample(
                    *self,
                    t as int,
                    sample_sep as int,
                    num_samples as int,
                    j,
                ),
    {
        let p = self.point_at_time(t);
        let mut r: Vec<PointFp> = Vec::new();
        let mut j: usize = 0;
        while j < num_samples
            invariant
                self.wf(),
                1 <= num_samples <= 64,
                0 <= sample_sep <= 2 * MAX_WIDTH_FP,
                -MAX_TIME_FP <= t <= MAX_TIME_FP,
                p == spec_point_at(*self, t as int),
                -0x8_0000_0000_0000 <= p.x <= 0x8_0000_0000_0000,
                -0x8_0000_0000_0000 <= p.y <= 0x8_0000_0000_0000,
                j <= num_samples,
                r@.len() == j,
                forall|jj: int|
                    0 <= jj < j ==> #[trigger] r@[jj] == spec_perp_sample(
                        *self,
                        t as int,
                        sample_sep as int,
                        num_samples as int,
                        jj,
                    ),
            decreases num_samples - j,
        {
            let k: i64 = 2 * (j as i64 - (num_samples / 2) as i64) + (
            if num_samples % 2 == 0 {
                1i64
            } else {
                0i64
            });
            proof {
                lemma_abs_mul_le(
                    self.dir.y as int,
                    sample_sep as int,
                    0x1_0000,
                    2 * MAX_WIDTH_FP as int,
                );
                lemma_abs_mul_le(
                    (self.dir.y as int) * (sample_sep as int),
                    k as int,
                    0x2_0000_0000_0000,
                    129,
                );
                lemma_abs_mul_le(
                    -self.dir.x as int,
                    sample_sep as int,
                    0x1_0000,
                    2 * MAX_WIDTH_FP as int,
                );
                lemma_abs_mul_le(
                    (-self.dir.x as int) * (sample_sep as int),
                    k as int,
                    0x2_0000_0000_0000,
                    129,
                );
            }
            let ox = div_floor(
                (self.dir.y as i128) * (sample_sep as i128) * (k as i128),
                2 * FP_UNIT as i128,
            );
            let oy = div_floor(
                ((-self.dir.x) as i128) * (sample_sep as i128) * (k as i128),
                2 * FP_UNIT as i128,
            );
            r.push(PointFp { x: p.x + (ox as i64), y: p.y + (oy as i64) });
            j = j + 1;
        }
        r
    }
}

/// One signed fixed-point unit-direction component, exactly
/// `spec_dir_fp(d, m)` (see there).
fn dir_component(d: i64, m: i128) -> (r: i64)
    requires
        -0x2_0000_0000 <= d <= 0x2_0000_0000,
        1 <= m <= 0x8_0000_0000_0000_0000,
        (d as int) * (d as int) <= m,
    ensures
        r as int == spec_dir_fp(d as int, m as int),
        -FP_UNIT <= r <= FP_UNIT,
{
    let mag = if d < 0 {
        (-d) as u128
    } else {
        d as u128
    };
    let a = mag * 0x1_0000;
    proof {
        lemma_abs_mul_le(a as int, a as int, 0x2_0000_0000_0000, 0x2_0000_0000_0000);
    }
    let t = (a * a) / (m as u128);
    let w = isqrt(t);
    proof {
        // w <= 2^16: a*a = d*d * 2^32 <= m * 2^32, so t <= 2^32 and the
        // square root is at most 2^16.
        let ai = a as int;
        let mi = m as int;
        let di = d as int;
        assert(di * di == abs_int(di) * abs_int(di)) by (nonlinear_arith);
        assert(ai == abs_int(di) * 0x1_0000);
        assert(ai * ai == (di * di) * 0x1_0000_0000) by (nonlinear_arith)
            requires
                ai == abs_int(di) * 0x1_0000,
                di * di == abs_int(di) * abs_int(di);
        assert((di * di) * 0x1_0000_0000 <= mi * 0x1_0000_0000) by (nonlinear_arith)
            requires
                di * di <= mi;
        vstd::arithmetic::div_mod::lemma_div_is_ordered(ai * ai, mi * 0x1_0000_0000, mi);
        vstd::arithmetic::div_mod::lemma_div_multiples_vanish(0x1_0000_0000, mi);
        assert((t as int) <= 0x1_0000_0000);
        assert((w as int) <= 0x1_0000) by (nonlinear_arith)
            requires
                (w as int) * (w as int) <= t as int,
                t as int <= 0x1_0000_0000,
                w as int >= 0,
                (0x1_0000int + 1) * (0x1_0000int + 1) > 0x1_0000_0000;
    }
    if d < 0 {
        -(w as i64)
    } else {
        w as i64
    }
}



/// Floor division for a nonzero divisor of either sign.
pub open spec fn spec_div_floor(a: int, b: int) -> int {
    if b >= 0 {
        a / b
    } else {
        (-a) / (-b)
    }
}

/// Floor division by a nonzero divisor of either sign.
pub fn div_floor_gen(n: i128, d: i128) -> (r: i128)
    requires
        d != 0,
        -0x1_0000_0000_0000_0000 <= d <= 0x1_0000_0000_0000_0000,
        -0xfff_0000_0000_0000_0000_0000_0000_0000 <= n <= 0xfff_0000_0000_0000_0000_0000_0000_0000,
    ensures
        r == spec_div_floor(n as int, d as int),
        n >= 0 && d > 0 ==> 0 <= r <= n,
        n <= 0 && d > 0 ==> n <= r <= 0,
        n >= 0 && d < 0 ==> -n <= r <= 0,
        n <= 0 && d < 0 ==> 0 <= r <= -n,
{
    if d > 0 {
        div_floor(n, d)
    } else {
        div_floor(-n, -d)
    }
}

/// The ruling parameter at which one coordinate reaches the value `c_fp`
/// (both in fixed point): `(c_fp - pos_c) * 2^16 / dir_c`, rounded down.
pub open spec fn spec_boundary_time(pos_c: int, dir_c: int, c_fp: int) -> int {
    spec_div_floor((c_fp - pos_c) * 0x1_0000, dir_c)
}

/// Smaller/larger of two optional candidates.
pub open spec fn opt_min(a: Option<int>, b: Option<int>) -> Option<int> {
    match (a, b) {
        (Some(x), Some(y)) => Some(if x <= y { x } else { y }),
        (Some(x), None) => Some(x),
        (None, Some(y)) => Some(y),
        (None, None) => None,
    }
}

pub open spec fn opt_max(a: Option<int>, b: Option<int>) -> Option<int> {
    match (a, b) {
        (Some(x), Some(y)) => Some(if x >= y { x } else { y }),
        (Some(x), None) => Some(x),
        (None, Some(y)) => Some(y),
        (None, None) => None,
    }
}

/// Candidate crossing time of a vertical frame edge `x == c_fp`, kept only
/// if the ruling meets that edge within the frame's rows.
pub open spec fn spec_cand_x(staff: Staff, c_fp: int, h_fp: int) -> Option<int> {
    if staff.dir.x == 0 {
        None
    } else {
        let t = spec_boundary_time(staff.pos.x as int, staff.dir.x as int, c_fp);
        let p = spec_point_at(staff, t);
        if 0 <= p.y <= h_fp {
            Some(t)
        } else {
            None
        }
    }
}

/// Candidate crossing time of a horizontal frame edge `y == c_fp`.
pub open spec fn spec_cand_y(staff: Staff, c_fp: int, w_fp: int) -> Option<int> {
    if staff.dir.y == 0 {
        None
    } else {
        let t = spec_boundary_time(staff.pos.y as int, staff.dir.y as int, c_fp);
        let p = spec_point_at(staff, t);
        if 0 <= p.x <= w_fp {
            Some(t)
        } else {
            None
        }
    }
}

/// The ruling parameters at which the ruling enters and leaves a frame of
/// the given fixed-point extent: the least and greatest candidate edge
/// crossing that lies on the frame, or nothing when the ruling misses the
/// frame entirely.
pub open spec fn spec_entry_exit(staff: Staff, w_fp: int, h_fp: int) -> Option<(int, int)> {
    let c1 = spec_cand_x(staff, 0, h_fp);
    let c2 = spec_cand_x(staff, w_fp, h_fp);
    let c3 = spec_cand_y(staff, 0, w_fp);
    let c4 = spec_cand_y(staff, h_fp, w_fp);
    let lo = opt_min(opt_min(c1, c2), opt_min(c3, c4));
    let hi = opt_max(opt_max(c1, c2), opt_max(c3, c4));
    match (lo, hi) {
        (Some(a), Some(b)) => Some((a, b)),
        _ => None,
    }
}

impl Staff {
    /// Where the ruling enters and leaves the frame; exactly
    /// `spec_entry_exit` of the frame's fixed-point extent.
    pub fn screen_entry_exit_times(&self, width: usize, height: usize) -> (r: Option<(i64, i64)>)
        requires
            self.wf(),
            width <= MAX_DIM,
            height <= MAX_DIM,
        ensures
            match r {
                Some(ts) => spec_entry_exit(
                    *self,
                    width * FP_UNIT as int,
                    height * FP_UNIT as int,
                ) == Some((ts.0 as int, ts.1 as int)) && -0x2_0000_0000_0000 <= ts.0 <= ts.1
                    <= 0x2_0000_0000_0000,
                None => spec_entry_exit(
                    *self,
                    width * FP_UNIT as int,
                    height * FP_UNIT as int,
                ) is None,
            },
    {
        let w_fp = (width as i64) * FP_UNIT;
        let h_fp = (height as i64) * FP_UNIT;
        let c1 = self.cand_x(0, w_fp, h_fp);
        let c2 = self.cand_x(w_fp, w_fp, h_fp);
        let c3 = self.cand_y(0, w_fp, h_fp);
        let c4 = self.cand_y(h_fp, w_fp, h_fp);
        let lo = omin(omin(c1, c2), omin(c3, c4));
        let hi = omax(omax(c1, c2), omax(c3, c4));
        match (lo, hi) {
            (Some(a), Some(b)) => Some((a, b)),
            _ => None,
        }
    }

    /// Candidate time for a vertical frame edge; exactly `spec_cand_x`.
    fn cand_x(&self, c_fp: i64, w_fp: i64, h_fp: i64) -> (r: Option<i64>)
        requires
            self.wf(),
            0 <= c_fp <= MAX_COORD_FP,
            0 <= w_fp <= MAX_COORD_FP,
            0 <= h_fp <= MAX_COORD_FP,
        ensures
            opt_view(r) == spec_cand_x(*self, c_fp as int, h_fp as int),
            r matches Some(t) ==> -0x2_0000_0000_0000 <= t <= 0x2_0000_0000_0000,
    {
        if self.dir.x == 0 {
            return None;
        }
        let diff = c_fp - self.pos.x;
        proof {
            assert(-0x2_0000_0000 <= diff <= 0x2_0000_0000);
        }
        let t128 = div_floor_gen((diff as i128) * (FP_UNIT as i128), self.dir.x as i128);
        let t = t128 as i64;
        let p = self.point_at_time(t);
        if 0 <= p.y && p.y <= h_fp {
            Some(t)
        } else {
            None
        }
    }

    /// Candidate time for a horizontal frame edge; exactly `spec_cand_y`.
    fn cand_y(&self, c_fp: i64, w_fp: i64, h_fp: i64) -> (r: Option<i64>)
        requires
            self.wf(),
            0 <= c_fp <= MAX_COORD_FP,
            0 <= w_fp <= MAX_COORD_FP,
            0 <= h_fp <= MAX_COORD_FP,
        ensures
            opt_view(r) == spec_cand_y(*self, c_fp as int, w_fp as int),
            r matches Some(t) ==> -0x2_0000_0000_0000 <= t <= 0x2_0000_0000_0000,
    {
        if self.dir.y == 0 {
            return None;
        }
        let diff = c_fp - self.pos.y;
        proof {
            assert(-0x2_0000_0000 <= diff <= 0x2_0000_0000);
        }
        let t128 = div_floor_gen((diff as i128) * (FP_UNIT as i128), self.dir.y as i128);
        let t = t128 as i64;
        let p = self.point_at_time(t);
        if 0 <= p.x && p.x <= w_fp {
            Some(t)
        } else {
            None
        }
    }
}

/// Smaller of two optional times; exactly `opt_min` of the views.
fn omin(a: Option<i64>, b: Option<i64>) -> (r: Option<i64>)
    ensures
        opt_view(r) == opt_min(opt_view(a), opt_view(b)),
{
    match (a, b) {
        (Some(x), Some(y)) => Some(
            if x <= y {
                x
            } else {
                y
            },
        ),
        (Some(x), None) => Some(x),
        (None, Some(y)) => Some(y),
        (None, None) => None,
    }
}

/// Larger of two optional times; exactly `opt_max` of the views.
fn omax(a: Option<i64>, b: Option<i64>) -> (r: Option<i64>)
    ensures
        opt_view(r) == opt_max(opt_view(a), opt_view(b)),
{
    match (a, b) {
        (Some(x), Some(y)) => Some(
            if x >= y {
                x
            } else {
                y
            },
        ),
        (Some(x), None) => Some(x),
        (None, Some(y)) => Some(y),
        (None, None) => None,
    }
}

/// An optional machine-word time as an optional mathematical one.
pub open spec fn opt_view(o: Option<i64>) -> Option<int> {
    match o {
        Some(v) => Some(v as int),
        None => None,
    }
}

} // verus!
