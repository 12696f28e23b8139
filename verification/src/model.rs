//! The concrete RANSAC model: a staff line through two crossings.
//!
//! A candidate model is the line through the centres of two `StaffCross`
//! anchors.  A third crossing is an inlier when it is close to that line,
//! not aligned with it, and agrees with it on staff-line and staff-space
//! widths.  All four tests are relative comparisons in which the (irrational)
//! length of the line's normal cancels, so they are carried out exactly in
//! integers.

use vstd::prelude::*;
use crate::geometry::abs_int;
use crate::geometry::isqrt;
use crate::geometry::sqrt_floor;
use crate::geometry::Line;
use crate::geometry::PointD;
use crate::geometry::spec_norm_sq;
use crate::geometry::spec_proj;
use crate::scanning::StaffCross;

verus! {

/// Upper span boundary of a crossing, in doubled coordinates: half a pixel
/// above the first dark row of span `i`.
pub open spec fn spec_up(c: StaffCross, i: int) -> PointD {
    PointD { x: (2 * c.x) as i64, y: (2 * c.spans@[i].y_min - 1) as i64 }
}

/// Lower span boundary of a crossing, in doubled coordinates: half a pixel
/// below the last dark row of span `i`.
pub open spec fn spec_dn(c: StaffCross, i: int) -> PointD {
    PointD { x: (2 * c.x) as i64, y: (2 * c.spans@[i].y_max + 1) as i64 }
}

/// Projection of span boundary points onto the scaled signed distance to `l`.
pub open spec fn proj_up(l: Line, c: StaffCross, i: int) -> int {
    spec_proj(l, spec_up(c, i).x as int, spec_up(c, i).y as int)
}

pub open spec fn proj_dn(l: Line, c: StaffCross, i: int) -> int {
    spec_proj(l, spec_dn(c, i).x as int, spec_dn(c, i).y as int)
}

/// Sum of the four spaces between consecutive spans of `c`, each measured as
/// a distance across the line `l`, scaled by the length of `l`'s normal.
/// The crossing's average space width relative to `l` is this sum divided by
/// four and by that length.
pub open spec fn space_sum(l: Line, c: StaffCross) -> int {
    abs_int(proj_dn(l, c, 0) - proj_up(l, c, 1)) + abs_int(proj_dn(l, c, 1) - proj_up(l, c, 2))
        + abs_int(proj_dn(l, c, 2) - proj_up(l, c, 3)) + abs_int(
        proj_dn(l, c, 3) - proj_up(l, c, 4),
    )
}

/// Sum of the five span thicknesses of `c` measured across the line `l`,
/// scaled by the length of `l`'s normal.  The crossing's average line width
/// relative to `l` is this sum divided by five and by that length.
pub open spec fn line_sum(l: Line, c: StaffCross) -> int {
    abs_int(proj_dn(l, c, 0) - proj_up(l, c, 0)) + abs_int(proj_dn(l, c, 1) - proj_up(l, c, 1))
        + abs_int(proj_dn(l, c, 2) - proj_up(l, c, 2)) + abs_int(
        proj_dn(l, c, 3) - proj_up(l, c, 3),
    ) + abs_int(proj_dn(l, c, 4) - proj_up(l, c, 4))
}

/// A staff-line model: the line through the centres of two anchor crossings.
#[derive(Clone, Copy, Debug)]
pub struct StaffCrossLine {
    pub a: StaffCross,
    pub b: StaffCross,
}

impl StaffCrossLine {
    pub open spec fn wf(self) -> bool {
        self.a.wf() && self.b.wf()
    }

    /// The derived line, through the two centres (doubled coordinates).
    pub open spec fn spec_line(self) -> Line {
        Line {
            a: PointD {
                x: self.a.spec_centre().0 as i64,
                y: self.a.spec_centre().1 as i64,
            },
            b: PointD {
                x: self.b.spec_centre().0 as i64,
                y: self.b.spec_centre().1 as i64,
            },
        }
    }

    /// Space-width sum of the model: both anchors' space sums against the
    /// derived line.  The model's average space width is this divided by
    /// eight and by the length of the line's normal.
    pub open spec fn spec_space_sum(self) -> int {
        space_sum(self.spec_line(), self.a) + space_sum(self.spec_line(), self.b)
    }

    /// Line-width sum of the model; its average line width is this divided
    /// by ten and by the length of the line's normal.
    pub open spec fn spec_line_sum(self) -> int {
        line_sum(self.spec_line(), self.a) + line_sum(self.spec_line(), self.b)
    }

    pub fn new(a: StaffCross, b: StaffCross) -> (r: StaffCrossLine)
        ensures
            r.a == a,
            r.b == b,
    {
        StaffCrossLine { a, b }
    }

    /// The derived line.
    pub fn line(&self) -> (l: Line)
        requires
            self.wf(),
        ensures
            l == self.spec_line(),
            l.in_range(),
    {
        let (ax, ay) = self.a.centre();
        let (bx, by) = self.b.centre();
        Line::new(PointD { x: ax, y: ay }, PointD { x: bx, y: by })
    }
}

/// An inlier of a staff-line model.  With `l` the centre line, `msq` the
/// squared length of its direction, `sm`/`tm` the model's space/line width
/// sums, a crossing `p` is an inlier when all of the following hold, each a
/// division-free form of the corresponding relative test:
///  - the model is not degenerate (its two centres differ);
///  - `p`'s centre is within half the model's average space width of the
///    line;
///  - the (vertical) scan direction is more than ~37 degrees away from the
///    line's direction (`|cos| <= 4/5`), so crossings of a second, steeper
///    staff on the same scan column are excluded;
///  - `p`'s average space width is within 1/2 relative error of the model's;
///  - `p`'s average line width is within 1/1 relative error of the model's.
pub open spec fn spec_is_inlier(m: StaffCrossLine, p: StaffCross) -> bool {
    let l = m.spec_line();
    let msq = spec_norm_sq(l);
    let sm = m.spec_space_sum();
    let tm = m.spec_line_sum();
    let dc = spec_proj(l, p.spec_centre().0, p.spec_centre().1);
    let dy = l.b.y - l.a.y;
    &&& msq != 0
    &&& 16 * abs_int(dc) <= sm
    &&& 25 * (dy * dy) <= 16 * msq
    &&& 2 * abs_int(2 * space_sum(l, p) - sm) <= sm
    &&& abs_int(2 * line_sum(l, p) - tm) <= tm
}

impl StaffCross {
    /// The two boundary points of each span, in doubled coordinates (half a
    /// pixel above the first dark row, half a pixel below the last).
    pub fn span_points(&self) -> (r: Vec<(PointD, PointD)>)
        requires
            self.wf(),
        ensures
            r@.len() == 5,
            forall|i: int| 0 <= i < 5 ==> #[trigger] r@[i] == (spec_up(*self, i), spec_dn(*self, i)),
    {
        let mut r: Vec<(PointD, PointD)> = Vec::new();
        let mut i: usize = 0;
        while i < 5
            invariant
                self.wf(),
                i <= 5,
                r@.len() == i,
                forall|j: int|
                    0 <= j < i ==> #[trigger] r@[j] == (spec_up(*self, j), spec_dn(*self, j)),
            decreases 5 - i,
        {
            r.push((self.up_point(i), self.dn_point(i)));
            i = i + 1;
        }
        r
    }

    /// The direction in which columns are scanned (straight down), as a unit
    /// vector in whole units.
    pub fn scan_direction(&self) -> (r: PointD)
        ensures
            r == (PointD { x: 0i64, y: 1i64 }),
    {
        PointD { x: 0, y: 1 }
    }

    fn up_point(&self, i: usize) -> (r: PointD)
        requires
            self.wf(),
            i < 5,
        ensures
            r == spec_up(*self, i as int),
            r.in_range(),
    {
        PointD {
            x: 2 * (self.x as i64),
            y: 2 * (self.spans[i].y_min as i64) - 1,
        }
    }

    fn dn_point(&self, i: usize) -> (r: PointD)
        requires
            self.wf(),
            i < 5,
        ensures
            r == spec_dn(*self, i as int),
            r.in_range(),
    {
        PointD {
            x: 2 * (self.x as i64),
            y: 2 * (self.spans[i].y_max as i64) + 1,
        }
    }

    /// Space-width sum of this crossing against a line; the crossing's
    /// average space width is this divided by four and by the length of the
    /// line's normal.
    pub fn space_width_sum(&self, line: &Line) -> (r: i64)
        requires
            self.wf(),
            line.in_range(),
        ensures
            r == space_sum(*line, *self),
            0 <= r <= 0x800_0000_0000,
    {
        let d0 = line.signed_distance_to_point(&self.dn_point(0)) - line.signed_distance_to_point(
            &self.up_point(1),
        );
        let d1 = line.signed_distance_to_point(&self.dn_point(1)) - line.signed_distance_to_point(
            &self.up_point(2),
        );
        let d2 = line.signed_distance_to_point(&self.dn_point(2)) - line.signed_distance_to_point(
            &self.up_point(3),
        );
        let d3 = line.signed_distance_to_point(&self.dn_point(3)) - line.signed_distance_to_point(
            &self.up_point(4),
        );
        abs_i64(d0) + abs_i64(d1) + abs_i64(d2) + abs_i64(d3)
    }

    /// Line-width sum of this crossing against a line; the crossing's
    /// average line width is this divided by five and by the length of the
    /// line's normal.
    pub fn line_width_sum(&self, line: &Line) -> (r: i64)
        requires
            self.wf(),
            line.in_range(),
        ensures
            r == line_sum(*line, *self),
            0 <= r <= 0x800_0000_0000,
    {
        let d0 = line.signed_distance_to_point(&self.dn_point(0)) - line.signed_distance_to_point(
            &self.up_point(0),
        );
        let d1 = line.signed_distance_to_point(&self.dn_point(1)) - line.signed_distance_to_point(
            &self.up_point(1),
        );
        let d2 = line.signed_distance_to_point(&self.dn_point(2)) - line.signed_distance_to_point(
            &self.up_point(2),
        );
        let d3 = line.signed_distance_to_point(&self.dn_point(3)) - line.signed_distance_to_point(
            &self.up_point(3),
        );
        let d4 = line.signed_distance_to_point(&self.dn_point(4)) - line.signed_distance_to_point(
            &self.up_point(4),
        );
        abs_i64(d0) + abs_i64(d1) + abs_i64(d2) + abs_i64(d3) + abs_i64(d4)
    }

    /// Average space width of this crossing relative to a line, in
    /// 2^-16-pixel fixed point: the floor of
    /// `space sum * 2^16 / (4 * 2 * sqrt(norm_sq))` (the extra factor two
    /// converts doubled coordinates back to pixels).
    pub fn average_space_width(&self, line: &Line) -> (r: i64)
        requires
            self.wf(),
            line.in_range(),
            spec_norm_sq(*line) != 0,
        ensures
            r == sqrt_floor(
                (space_sum(*line, *self) * 8192) * (space_sum(*line, *self) * 8192) / spec_norm_sq(
                    *line,
                ),
            ),
            0 <= r <= space_sum(*line, *self) * 8192,
    {
        let s = self.space_width_sum(line);
        width_scaled(s, 8192, line)
    }

    /// Average line width of this crossing relative to a line, in
    /// 2^-16-pixel fixed point: the floor of
    /// `line sum * 2^16 / (5 * 2 * sqrt(norm_sq))`.
    pub fn average_line_width(&self, line: &Line) -> (r: i64)
        requires
            self.wf(),
            line.in_range(),
            spec_norm_sq(*line) != 0,
        ensures
            r == sqrt_floor(
                (line_sum(*line, *self) * 6553) * (line_sum(*line, *self) * 6553) / spec_norm_sq(
                    *line,
                ),
            ),
            0 <= r <= line_sum(*line, *self) * 6553,
    {
        let s = self.line_width_sum(line);
        width_scaled(s, 6553, line)
    }
}

/// Absolute value of a bounded machine integer.
fn abs_i64(v: i64) -> (r: i64)
    requires
        -0x4000_0000_0000_0000 <= v <= 0x4000_0000_0000_0000,
    ensures
        r == abs_int(v as int),
{
    if v < 0 {
        -v
    } else {
        v
    }
}

/// The squared length of a line's direction vector.
fn norm_sq(line: &Line) -> (r: i64)
    requires
        line.in_range(),
    ensures
        r == spec_norm_sq(*line),
        0 <= r <= 0x100_0000_0000,
{
    let dx = line.a.x - line.b.x;
    let dy = line.a.y - line.b.y;
    proof {
        crate::geometry::lemma_abs_mul_le(dx as int, dx as int, 0x8_0000, 0x8_0000);
        crate::geometry::lemma_abs_mul_le(dy as int, dy as int, 0x8_0000, 0x8_0000);
        assert(dx as int * dx as int >= 0 && dy as int * dy as int >= 0) by (nonlinear_arith);
    }
    dx * dx + dy * dy
}

/// Floor of `sum * factor / sqrt(norm_sq)`, computed exactly:
/// `floor(a / sqrt(m)) == isqrt(a*a / m)` for `a >= 0, m >= 1`.  The factor
/// encodes the width scale: 2^16 fixed point divided by the number of
/// contributing measurements (and by two, for doubled coordinates).
fn width_scaled(sum: i64, factor: i64, line: &Line) -> (r: i64)
    requires
        line.in_range(),
        spec_norm_sq(*line) != 0,
        0 <= sum <= 0x1000_0000_0000,
        1 <= factor <= 8192,
    ensures
        r == sqrt_floor((sum * factor) * (sum * factor) / spec_norm_sq(*line)),
        0 <= r <= sum * factor,
{
    let m = norm_sq(line);
    proof {
        crate::geometry::lemma_abs_mul_le(sum as int, factor as int, 0x1000_0000_0000, 8192);
    }
    let a = (sum as u128) * (factor as u128);
    proof {
        crate::geometry::lemma_abs_mul_le(a as int, a as int, 0x200_0000_0000_0000, 0x200_0000_0000_0000);
    }
    let t = (a * a) / (m as u128);
    let r = isqrt(t);
    proof {
        let ai = a as int;
        let mi = m as int;
        let ti = t as int;
        let ri = r as int;
        vstd::arithmetic::div_mod::lemma_div_is_ordered_by_denominator(ai * ai, 1, mi);
        assert(ti <= ai * ai);
        assert(ri <= ai) by (nonlinear_arith)
            requires
                ri * ri <= ti,
                ti <= ai * ai,
                ri >= 0,
                ai >= 0;
    }
    r as i64
}

/// Filtering a sequence extended by one element keeps the element exactly
/// when the predicate holds of it.
proof fn lemma_filter_push<A>(s: Seq<A>, x: A, pred: spec_fn(A) -> bool)
    ensures
        s.push(x).filter(pred) == (if pred(x) {
            s.filter(pred).push(x)
        } else {
            s.filter(pred)
        }),
{
    reveal(Seq::filter);
    assert(s.push(x).drop_last() =~= s);
    assert(s.push(x).last() == x);
}

/// The model plug-in: fitting and inlier classification for staff lines
/// through `StaffCross` points.
#[derive(Clone, Copy, Debug)]
pub struct StaffCrossLineModel;

impl StaffCrossLineModel {
    /// Points needed to propose a candidate model.
    pub fn num_required() -> (r: usize)
        ensures
            r == 2,
    {
        2
    }

    /// Propose a candidate model from two anchor points.
    pub fn fit_inliers(p1: &StaffCross, p2: &StaffCross) -> (r: StaffCrossLine)
        ensures
            r.a == p1,
            r.b == p2,
    {
        StaffCrossLine::new(*p1, *p2)
    }

    /// Whether `pt` is consistent with the model; exactly `spec_is_inlier`.
    pub fn is_inlier(model: &StaffCrossLine, pt: &StaffCross) -> (r: bool)
        requires
            model.wf(),
            pt.wf(),
        ensures
            r == spec_is_inlier(*model, *pt),
    {
        let line = model.line();
        let msq = norm_sq(&line);
        if msq == 0 {
            return false;
        }
        let sm = model.a.space_width_sum(&line) + model.b.space_width_sum(&line);
        let tm = model.a.line_width_sum(&line) + model.b.line_width_sum(&line);
        let (cx, cy) = pt.centre();
        let dc = line.distance_to_point(&PointD { x: cx, y: cy });
        if 16 * dc > sm {
            return false;
        }
        let dy = line.b.y - line.a.y;
        proof {
            crate::geometry::lemma_abs_mul_le(dy as int, dy as int, 0x8_0000, 0x8_0000);
        }
        if 25 * (dy * dy) > 16 * msq {
            return false;
        }
        let sp = pt.space_width_sum(&line);
        if 2 * abs_i64(2 * sp - sm) > sm {
            return false;
        }
        let tp = pt.line_width_sum(&line);
        if abs_i64(2 * tp - tm) > tm {
            return false;
        }
        true
    }

    /// All points of `data` consistent with the model, in input order.
    pub fn find_inliers(max_distance: i64, data: &Vec<StaffCross>, model: &StaffCrossLine) -> (r:
        Vec<StaffCross>)
        requires
            model.wf(),
            forall|i: int| 0 <= i < data@.len() ==> (#[trigger] data@[i]).wf(),
        ensures
            r@ == data@.filter(|p: StaffCross| spec_is_inlier(*model, p)),
            forall|i: int| 0 <= i < r@.len() ==> (#[trigger] r@[i]).wf(),
    {
        let ghost pred = |p: StaffCross| spec_is_inlier(*model, p);
        let mut r: Vec<StaffCross> = Vec::new();
        let mut i: usize = 0;
        while i < data.len()
            invariant
                model.wf(),
                forall|j: int| 0 <= j < data@.len() ==> (#[trigger] data@[j]).wf(),
                i <= data@.len(),
                pred == (|p: StaffCross| spec_is_inlier(*model, p)),
                r@ == data@.subrange(0, i as int).filter(pred),
                forall|j: int| 0 <= j < r@.len() ==> (#[trigger] r@[j]).wf(),
            decreases data@.len() - i,
        {
            let ghost prefix = data@.subrange(0, i as int);
            let pt = data[i];
            if Self::is_inlier(model, &pt) {
                r.push(pt);
            }
            proof {
                assert(data@.subrange(0, i + 1) =~= prefix.push(pt));
                lemma_filter_push(prefix, pt, pred);
            }
            i = i + 1;
        }
        proof {
            assert(data@.subrange(0, data@.len() as int) =~= data@);
        }
        r
    }

    /// All points of `data` not consistent with the model, in input order.
    pub fn find_outliers(max_distance: i64, data: &Vec<StaffCross>, model: &StaffCrossLine) -> (r:
        Vec<StaffCross>)
        requires
            model.wf(),
            forall|i: int| 0 <= i < data@.len() ==> (#[trigger] data@[i]).wf(),
        ensures
            r@ == data@.filter(|p: StaffCross| !spec_is_inlier(*model, p)),
            forall|i: int| 0 <= i < r@.len() ==> (#[trigger] r@[i]).wf(),
    {
        let ghost pred = |p: StaffCross| !spec_is_inlier(*model, p);
        let mut r: Vec<StaffCross> = Vec::new();
        let mut i: usize = 0;
        while i < data.len()
            invariant
                model.wf(),
                forall|j: int| 0 <= j < data@.len() ==> (#[trigger] data@[j]).wf(),
                i <= data@.len(),
                pred == (|p: StaffCross| !spec_is_inlier(*model, p)),
                r@ == data@.subrange(0, i as int).filter(pred),
                forall|j: int| 0 <= j < r@.len() ==> (#[trigger] r@[j]).wf(),
            decreases data@.len() - i,
        {
            let ghost prefix = data@.subrange(0, i as int);
            let pt = data[i];
            if !Self::is_inlier(model, &pt) {
                r.push(pt);
            }
            proof {
                assert(data@.subrange(0, i + 1) =~= prefix.push(pt));
                lemma_filter_push(prefix, pt, pred);
            }
            i = i + 1;
        }
        proof {
            assert(data@.subrange(0, data@.len() as int) =~= data@);
        }
        r
    }

    /// Fitting a model to a whole point set at once is not part of this
    /// system; the engine fits from minimal samples only.
    pub fn fit_model(data: &Vec<StaffCross>) -> (r: Option<StaffCrossLine>)
        ensures
            r is None,
    {
        None
    }
}


impl StaffCrossLine {
    /// Average space width of the model, in 2^-16-pixel fixed point: the
    /// mean of the two anchors' averages against the derived line, i.e. the
    /// floor of `space sum * 2^16 / (8 * 2 * sqrt(norm_sq))` with the
    /// doubled-coordinate factor two folded in.
    pub fn average_space_width(&self) -> (r: i64)
        requires
            self.wf(),
            spec_norm_sq(self.spec_line()) != 0,
        ensures
            r == sqrt_floor(
                (self.spec_space_sum() * 4096) * (self.spec_space_sum() * 4096) / spec_norm_sq(
                    self.spec_line(),
                ),
            ),
    {
        let line = self.line();
        let sm = self.a.space_width_sum(&line) + self.b.space_width_sum(&line);
        width_scaled(sm, 4096, &line)
    }

    /// Average line width of the model, in 2^-16-pixel fixed point: the
    /// floor of `line sum * 2^16 / (10 * 2 * sqrt(norm_sq))` (2^16 / 20
    /// rounded down to 3276).
    pub fn average_line_width(&self) -> (r: i64)
        requires
            self.wf(),
            spec_norm_sq(self.spec_line()) != 0,
        ensures
            r == sqrt_floor(
                (self.spec_line_sum() * 3276) * (self.spec_line_sum() * 3276) / spec_norm_sq(
                    self.spec_line(),
                ),
            ),
    {
        let line = self.line();
        let tm = self.a.line_width_sum(&line) + self.b.line_width_sum(&line);
        width_scaled(tm, 3276, &line)
    }

    /// The infinite ruling this model describes: anchored at `a`'s centre,
    /// directed toward `b`'s centre, carrying the model's aggregate width
    /// estimates.  `None` when the model is degenerate (coinciding centres)
    /// or its width estimates exceed the geometry's fixed-point range.
    pub fn to_staff(&self) -> (r: Option<crate::geometry::Staff>)
        requires
            self.wf(),
        ensures
            match r {
                None => spec_norm_sq(self.spec_line()) == 0 || sqrt_floor(
                    (self.spec_space_sum() * 4096) * (self.spec_space_sum() * 4096)
                        / spec_norm_sq(self.spec_line()),
                ) > crate::geometry::MAX_WIDTH_FP || sqrt_floor(
                    (self.spec_line_sum() * 3276) * (self.spec_line_sum() * 3276) / spec_norm_sq(
                        self.spec_line(),
                    ),
                ) > crate::geometry::MAX_WIDTH_FP,
                Some(st) => {
                    &&& spec_norm_sq(self.spec_line()) != 0
                    &&& st == crate::geometry::spec_staff_new(
                        crate::geometry::PointFp {
                            x: (self.a.spec_centre().0 * 0x8000) as i64,
                            y: (self.a.spec_centre().1 * 0x8000) as i64,
                        },
                        crate::geometry::PointFp {
                            x: (self.b.spec_centre().0 * 0x8000) as i64,
                            y: (self.b.spec_centre().1 * 0x8000) as i64,
                        },
                        sqrt_floor(
                            (self.spec_line_sum() * 3276) * (self.spec_line_sum() * 3276)
                                / spec_norm_sq(self.spec_line()),
                        ) as i64,
                        sqrt_floor(
                            (self.spec_space_sum() * 4096) * (self.spec_space_sum() * 4096)
                                / spec_norm_sq(self.spec_line()),
                        ) as i64,
                    )
                    &&& st.wf()
                },
            },
    {
        let line = self.line();
        let msq = norm_sq(&line);
        if msq == 0 {
            return None;
        }
        let sw_a = self.a.space_width_sum(&line);
        let sw_b = self.b.space_width_sum(&line);
        let tw_a = self.a.line_width_sum(&line);
        let tw_b = self.b.line_width_sum(&line);
        let space_width = width_scaled(sw_a + sw_b, 4096, &line);
        let line_width = width_scaled(tw_a + tw_b, 3276, &line);
        if space_width > crate::geometry::MAX_WIDTH_FP || line_width
            > crate::geometry::MAX_WIDTH_FP {
            return None;
        }
        let (ax, ay) = self.a.centre();
        let (bx, by) = self.b.centre();
        let a_fp = crate::geometry::PointFp { x: ax * 0x8000, y: ay * 0x8000 };
        let b_fp = crate::geometry::PointFp { x: bx * 0x8000, y: by * 0x8000 };
        Some(crate::geometry::Staff::new(a_fp, b_fp, line_width, space_width))
    }
}

} // verus!
