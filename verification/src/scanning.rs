//! Column scanning: dark pixel runs and candidate staff crossings.
//!
//! A `SegmentScanner` walks one column of the image top to bottom and emits
//! each contiguous run of dark pixels as a `Segment`.  A `StaffScanner` keeps
//! the five most recent segments of one column in a sliding window and emits
//! a `StaffCross` every time the window is full.  `scan_entire_image` drives
//! one such scanner per evenly spaced column and keeps the crossings whose
//! spans are regular enough to plausibly cut a staff.

use vstd::prelude::*;
use crate::geometry::abs_int;
use crate::geometry::MAX_DIM;
use crate::image::Image;
use crate::image::LUMA_MID;
use crate::InvariantViolation;

verus! {

/// One contiguous run of dark pixels in a scan column: rows `y_min ..= y_max`
/// of column `x` are ink.
#[derive(Clone, Copy, Debug, PartialEq, Eq, Structural)]
pub struct Segment {
    pub x: usize,
    pub y_min: usize,
    pub y_max: usize,
}

/// The rows covered by one staff line where a scan column crosses it
/// (inclusive bounds).
#[derive(Clone, Copy, Debug, PartialEq, Eq, Structural)]
pub struct Span {
    pub y_min: usize,
    pub y_max: usize,
}

/// A candidate crossing of a scan column with the five lines of a staff.
/// The spans are ordered by row; `wf` states the full structural invariant.
#[derive(Clone, Copy, Debug)]
pub struct StaffCross {
    pub x: usize,
    pub spans: [Span; 5],
}

/// Structural invariant of a crossing's span list: exactly five spans, each
/// ordered, mutually non-overlapping and ascending, all within coordinate
/// range.
pub open spec fn spans_wf(spans: Seq<Span>) -> bool {
    &&& spans.len() == 5
    &&& (forall|i: int|
        0 <= i < 5 ==> (#[trigger] spans[i]).y_min <= spans[i].y_max <= MAX_DIM)
    &&& (forall|i: int| 0 <= i < 4 ==> (#[trigger] spans[i]).y_max <= spans[i + 1].y_min)
}

/// Sum of the five span lengths (a span's length is `y_max - y_min`, the
/// number of rows beyond the first, as the reference pipeline measures it).
pub open spec fn len_sum(spans: Seq<Span>) -> int {
    (spans[0].y_max - spans[0].y_min) + (spans[1].y_max - spans[1].y_min) + (spans[2].y_max
        - spans[2].y_min) + (spans[3].y_max - spans[3].y_min) + (spans[4].y_max - spans[4].y_min)
}

/// Sum of the four gaps between consecutive spans.
pub open spec fn gap_sum(spans: Seq<Span>) -> int {
    (spans[1].y_min - spans[0].y_max) + (spans[2].y_min - spans[1].y_max) + (spans[3].y_min
        - spans[2].y_max) + (spans[4].y_min - spans[3].y_max)
}

/// `k * v` stays within the relative tolerance `tol_num / tol_den` of the sum
/// `s` of the `k` values: `|v - s/k| / (s/k) <= tol_num / tol_den`, cleared
/// of divisions.
pub open spec fn within_tolerance(k: int, v: int, s: int, tol_num: int, tol_den: int) -> bool {
    tol_den * abs_int(k * v - s) <= tol_num * s
}

/// A crossing is plausible when the spans are on average no thicker than the
/// gaps between them, and every gap and every span length is within a
/// relative tolerance of the respective average.  The tolerance is 33/100,
/// relaxed to 3/4 for gaps and 5/2 for lengths when the respective average is
/// below 3 pixels (quantisation dominates at such small scales).
pub open spec fn rep_plausible(spans: Seq<Span>) -> bool {
    let g = gap_sum(spans);
    let l = len_sum(spans);
    let g_num = if g < 12 { 3int } else { 33int };
    let g_den = if g < 12 { 4int } else { 100int };
    let l_num = if l < 15 { 5int } else { 33int };
    let l_den = if l < 15 { 2int } else { 100int };
    &&& 4 * l <= 5 * g
    &&& (forall|i: int|
        0 <= i < 4 ==> within_tolerance(
            4,
            (#[trigger] spans[i + 1]).y_min - spans[i].y_max,
            g,
            g_num,
            g_den,
        ))
    &&& (forall|i: int|
        0 <= i < 5 ==> within_tolerance(
            5,
            spans[i].y_max - (#[trigger] spans[i]).y_min,
            l,
            l_num,
            l_den,
        ))
}

impl StaffCross {
    /// Structural invariant; see `spans_wf`.
    pub open spec fn wf(self) -> bool {
        spans_wf(self.spans@) && self.x <= MAX_DIM
    }

    /// Representative point of the crossing, in doubled (half-pixel)
    /// coordinates: the midpoint of the middle span.  (The scan history also
    /// knew a variant using the mean of all five spans; this library fixes
    /// the middle-span definition.)
    pub open spec fn spec_centre(self) -> (int, int) {
        (2 * self.x, self.spans@[2].y_min + self.spans@[2].y_max)
    }

    /// Build a crossing from five ordered spans; rejects a malformed list.
    pub fn new(x: usize, spans: [Span; 5]) -> (r: Result<StaffCross, InvariantViolation>)
        ensures
            match r {
                Ok(c) => c.x == x && c.spans@ == spans@ && c.wf(),
                Err(_) => !(spans_wf(spans@) && x <= MAX_DIM),
            },
    {
        if x > MAX_DIM {
            return Err(InvariantViolation);
        }
        let mut i: usize = 0;
        while i < 5
            invariant
                i <= 5,
                forall|j: int| 0 <= j < i ==> (#[trigger] spans@[j]).y_min <= spans@[j].y_max
                    <= MAX_DIM,
                forall|j: int| 0 <= j < i && j + 1 < 5 ==> (#[trigger] spans@[j]).y_max
                    <= spans@[j + 1].y_min,
            decreases 5 - i,
        {
            let s = spans[i];
            if s.y_min > s.y_max || s.y_max > MAX_DIM {
                return Err(InvariantViolation);
            }
            if i + 1 < 5 {
                if s.y_max > spans[i + 1].y_min {
                    return Err(InvariantViolation);
                }
            }
            i = i + 1;
        }
        Ok(StaffCross { x, spans })
    }

    /// The five spans of the crossing, in ascending order.
    pub fn spans(&self) -> (r: &[Span; 5])
        ensures
            r@ == self.spans@,
    {
        &self.spans
    }

    /// Representative point in doubled coordinates.
    pub fn centre(&self) -> (r: (i64, i64))
        requires
            self.wf(),
        ensures
            (r.0 as int, r.1 as int) == self.spec_centre(),
            0 <= r.0 <= 2 * MAX_DIM && 0 <= r.1 <= 2 * MAX_DIM,
    {
        let mid = self.spans[2];
        ((self.x as i64) * 2, mid.y_min as i64 + mid.y_max as i64)
    }

    /// Whether the five spans are regular enough to plausibly be a staff
    /// cross-section; exactly `rep_plausible` of the spans.
    pub fn is_plausible(&self) -> (r: bool)
        requires
            self.wf(),
        ensures
            r == rep_plausible(self.spans@),
    {
        let s0 = self.spans[0];
        let s1 = self.spans[1];
        let s2 = self.spans[2];
        let s3 = self.spans[3];
        let s4 = self.spans[4];
        let g0 = s1.y_min as i64 - s0.y_max as i64;
        let g1 = s2.y_min as i64 - s1.y_max as i64;
        let g2 = s3.y_min as i64 - s2.y_max as i64;
        let g3 = s4.y_min as i64 - s3.y_max as i64;
        let l0 = s0.y_max as i64 - s0.y_min as i64;
        let l1 = s1.y_max as i64 - s1.y_min as i64;
        let l2 = s2.y_max as i64 - s2.y_min as i64;
        let l3 = s3.y_max as i64 - s3.y_min as i64;
        let l4 = s4.y_max as i64 - s4.y_min as i64;
        let g = g0 + g1 + g2 + g3;
        let l = l0 + l1 + l2 + l3 + l4;

        // Staff lines thicker on average than the spaces between them cannot
        // be a staff.
        if 4 * l > 5 * g {
            return false;
        }
        let g_num: i64 = if g < 12 { 3 } else { 33 };
        let g_den: i64 = if g < 12 { 4 } else { 100 };
        let l_num: i64 = if l < 15 { 5 } else { 33 };
        let l_den: i64 = if l < 15 { 2 } else { 100 };

        let ok = tol_ok(4, g0, g, g_num, g_den) && tol_ok(4, g1, g, g_num, g_den) && tol_ok(
            4,
            g2,
            g,
            g_num,
            g_den,
        ) && tol_ok(4, g3, g, g_num, g_den) && tol_ok(5, l0, l, l_num, l_den) && tol_ok(
            5,
            l1,
            l,
            l_num,
            l_den,
        ) && tol_ok(5, l2, l, l_num, l_den) && tol_ok(5, l3, l, l_num, l_den) && tol_ok(
            5,
            l4,
            l,
            l_num,
            l_den,
        );
        proof {
            if ok {
                assert forall|i: int| 0 <= i < 4 implies within_tolerance(
                    4,
                    (#[trigger] self.spans@[i + 1]).y_min - self.spans@[i].y_max,
                    gap_sum(self.spans@),
                    g_num as int,
                    g_den as int,
                ) by {
                    if i == 0 {
                    } else if i == 1 {
                    } else if i == 2 {
                    } else {
                        assert(i == 3);
                    }
                }
                assert forall|i: int| 0 <= i < 5 implies within_tolerance(
                    5,
                    self.spans@[i].y_max - (#[trigger] self.spans@[i]).y_min,
                    len_sum(self.spans@),
                    l_num as int,
                    l_den as int,
                ) by {
                    if i == 0 {
                    } else if i == 1 {
                    } else if i == 2 {
                    } else if i == 3 {
                    } else {
                        assert(i == 4);
                    }
                }
            }
        }
        ok
    }
}

/// One relative-tolerance check of `is_plausible`, cleared of divisions.
fn tol_ok(k: i64, v: i64, s: i64, tol_num: i64, tol_den: i64) -> (r: bool)
    requires
        1 <= k <= 5,
        0 <= v <= 8 * MAX_DIM,
        0 <= s <= 40 * MAX_DIM,
        0 <= tol_num <= 100,
        1 <= tol_den <= 100,
    ensures
        r == within_tolerance(k as int, v as int, s as int, tol_num as int, tol_den as int),
{
    proof {
        crate::geometry::lemma_abs_mul_le(k as int, v as int, 5, 8 * MAX_DIM as int);
    }
    let d = k * v - s;
    let a = if d < 0 {
        -d
    } else {
        d
    };
    proof {
        crate::geometry::lemma_abs_mul_le(tol_den as int, a as int, 100, 80 * MAX_DIM as int);
        crate::geometry::lemma_abs_mul_le(tol_num as int, s as int, 100, 40 * MAX_DIM as int);
    }
    tol_den * a <= tol_num * s
}


/// Walks one image column top to bottom, classifying pixels as white
/// (background) or dark (ink) with hysteresis at the luma midpoint, and
/// emits each completed dark run as a `Segment`.
#[derive(Clone, Copy, Debug)]
pub struct SegmentScanner {
    /// The column being scanned.
    pub x: usize,
    /// The row most recently examined.
    pub cursor: usize,
    /// Whether the scan is currently over background.
    pub is_white: bool,
    /// While over ink: the first row of the current dark run.
    pub dark_start: usize,
}

/// The first row at or after `from` (and before the bottom edge) whose luma
/// is strictly below the midpoint; the image height when there is none.
pub open spec fn next_dark_row(img: Image, x: int, from: int) -> int
    decreases img.height - from,
{
    if from >= img.height {
        img.height as int
    } else if img.luma(x, from) < LUMA_MID {
        from
    } else {
        next_dark_row(img, x, from + 1)
    }
}

/// The first row at or after `from` whose luma is strictly above the
/// midpoint; the image height when there is none.
pub open spec fn next_white_row(img: Image, x: int, from: int) -> int
    decreases img.height - from,
{
    if from >= img.height {
        img.height as int
    } else if img.luma(x, from) > LUMA_MID {
        from
    } else {
        next_white_row(img, x, from + 1)
    }
}

/// What one `SegmentScanner::next` call yields and the state it leaves
/// behind: from a white state, ink starts at the next dark row and the
/// segment ends just before the next white row after that; from a dark
/// state, the pending run that began at `dark_start` is completed.  A run
/// still open at the bottom edge is never emitted.
pub open spec fn spec_seg_next(img: Image, sc: SegmentScanner) -> (Option<Segment>, SegmentScanner) {
    let h = img.height as int;
    let s = if sc.is_white {
        next_dark_row(img, sc.x as int, sc.cursor + 1)
    } else {
        sc.dark_start as int
    };
    let e = if sc.is_white {
        next_white_row(img, sc.x as int, s + 1)
    } else {
        next_white_row(img, sc.x as int, sc.cursor + 1)
    };
    if e < h {
        (
            Some(Segment { x: sc.x, y_min: s as usize, y_max: (e - 1) as usize }),
            SegmentScanner { x: sc.x, cursor: e as usize, is_white: true, dark_start: s as usize },
        )
    } else if s < h {
        (
            None,
            SegmentScanner {
                x: sc.x,
                cursor: (h - 1) as usize,
                is_white: false,
                dark_start: s as usize,
            },
        )
    } else {
        (
            None,
            SegmentScanner {
                x: sc.x,
                cursor: (h - 1) as usize,
                is_white: true,
                dark_start: sc.dark_start,
            },
        )
    }
}

/// `next_dark_row` stays between `from` and the image height.
pub proof fn lemma_next_dark_row_range(img: Image, x: int, from: int)
    requires
        from <= img.height,
    ensures
        from <= next_dark_row(img, x, from) <= img.height,
    decreases img.height - from,
{
    if from < img.height && !(img.luma(x, from) < LUMA_MID) {
        lemma_next_dark_row_range(img, x, from + 1);
    }
}

/// `next_white_row` stays between `from` and the image height.
pub proof fn lemma_next_white_row_range(img: Image, x: int, from: int)
    requires
        from <= img.height,
    ensures
        from <= next_white_row(img, x, from) <= img.height,
    decreases img.height - from,
{
    if from < img.height && !(img.luma(x, from) > LUMA_MID) {
        lemma_next_white_row_range(img, x, from + 1);
    }
}

impl SegmentScanner {
    /// The scanner's state is consistent with the image it walks.
    pub open spec fn inv(self, img: Image) -> bool {
        &&& self.x < img.width
        &&& self.cursor < img.height
        &&& (!self.is_white ==> 1 <= self.dark_start <= self.cursor)
    }

    /// Start a scan of column `start_x`, at row `start_y`, in the white
    /// state.
    pub fn new(img: &Image, start_x: usize, start_y: usize) -> (sc: SegmentScanner)
        requires
            img.wf(),
            start_x < img.width,
            start_y < img.height,
        ensures
            sc == (SegmentScanner { x: start_x, cursor: start_y, is_white: true, dark_start: 0 }),
            sc.inv(*img),
    {
        SegmentScanner { x: start_x, cursor: start_y, is_white: true, dark_start: 0 }
    }

    /// Advance to the next completed dark run, or to the bottom edge.
    pub fn next(&mut self, img: &Image) -> (r: Option<Segment>)
        requires
            img.wf(),
            old(self).inv(*img),
        ensures
            (r, *final(self)) == spec_seg_next(*img, *old(self)),
            final(self).inv(*img),
    {
        loop
            invariant
                img.wf(),
                self.inv(*img),
                self.x == old(self).x,
                spec_seg_next(*img, *self) == spec_seg_next(*img, *old(self)),
            decreases img.height - self.cursor,
        {
            let nxt = self.cursor + 1;
            if nxt >= img.height() {
                proof {
                    assert(self.cursor == img.height - 1);
                }
                return None;
            }
            let px = img.index(self.x, nxt);
            let ghost before = *self;
            if self.is_white && px.y < LUMA_MID {
                self.is_white = false;
                self.dark_start = nxt;
            }
            self.cursor = nxt;
            if !self.is_white && px.y > LUMA_MID {
                self.is_white = true;
                let seg = Segment { x: self.x, y_min: self.dark_start, y_max: nxt - 1 };
                return Some(seg);
            }
            proof {
                if before.is_white && px.y >= LUMA_MID {
                    assert(next_dark_row(*img, self.x as int, before.cursor + 1) == next_dark_row(
                        *img,
                        self.x as int,
                        self.cursor + 1,
                    ));
                }
                if !before.is_white {
                    assert(next_white_row(*img, self.x as int, before.cursor + 1)
                        == next_white_row(*img, self.x as int, self.cursor + 1));
                }
            }
        }
    }
}


/// The spans of a five-segment window, in window order.
pub open spec fn window_spans(q: Seq<Segment>) -> Seq<Span> {
    Seq::new(q.len(), |i: int| Span { y_min: q[i].y_min, y_max: q[i].y_max })
}

/// A crossing value reduced to what determines it: its column and its spans.
pub open spec fn cross_rep(c: StaffCross) -> (int, Seq<Span>) {
    (c.x as int, c.spans@)
}

/// Unconditionally, one segment-scanner step never moves the cursor back,
/// and moves it strictly forward whenever it emits a segment.
pub proof fn lemma_seg_next_cursor(img: Image, sc: SegmentScanner)
    ensures
        ({
            let (r, sc2) = spec_seg_next(img, sc);
            r is Some ==> sc.cursor < sc2.cursor < img.height
        }),
{
    let h = img.height as int;
    if sc.cursor + 1 <= h {
        if sc.is_white {
            lemma_next_dark_row_range(img, sc.x as int, sc.cursor + 1);
            let s = next_dark_row(img, sc.x as int, sc.cursor + 1);
            if s + 1 <= h {
                lemma_next_white_row_range(img, sc.x as int, s + 1);
            }
        } else {
            lemma_next_white_row_range(img, sc.x as int, sc.cursor + 1);
        }
    }
}

/// Properties of one segment-scanner step from a consistent state: the step
/// keeps the state consistent, and an emitted segment is an ordered dark run
/// of the scanned column that ends just before the new cursor.
pub proof fn lemma_seg_next(img: Image, sc: SegmentScanner)
    requires
        img.wf(),
        sc.inv(img),
    ensures
        ({
            let (r, sc2) = spec_seg_next(img, sc);
            &&& sc2.x == sc.x
            &&& sc2.inv(img)
            &&& sc.cursor <= sc2.cursor
            &&& (r is Some ==> sc.cursor < sc2.cursor)
            &&& match r {
                Some(seg) => {
                    &&& seg.x == sc.x
                    &&& 1 <= seg.y_min <= seg.y_max
                    &&& seg.y_max + 1 == sc2.cursor
                    &&& seg.y_max + 1 < img.height
                    &&& sc2.is_white
                    &&& (sc.is_white ==> sc.cursor < seg.y_min)
                    &&& (!sc.is_white ==> seg.y_min == sc.dark_start)
                },
                None => {
                    !sc2.is_white ==> ((sc.is_white && sc2.dark_start > sc.cursor) || (
                    !sc.is_white && sc2.dark_start == sc.dark_start))
                },
            }
        }),
{
    let h = img.height as int;
    lemma_seg_next_cursor(img, sc);
    if sc.is_white {
        lemma_next_dark_row_range(img, sc.x as int, sc.cursor + 1);
        let s = next_dark_row(img, sc.x as int, sc.cursor + 1);
        if s + 1 <= h {
            lemma_next_white_row_range(img, sc.x as int, s + 1);
        }
    } else {
        lemma_next_white_row_range(img, sc.x as int, sc.cursor + 1);
    }
}

/// Sliding five-segment window over one column's segments; emits a
/// `StaffCross` every time the window is full.
#[derive(Clone, Debug)]
pub struct StaffScanner {
    /// The underlying dark-run scanner.
    pub seg: SegmentScanner,
    /// The most recent segments, oldest first (at most five).
    pub queue: Vec<Segment>,
}

/// The window holds ascending, disjoint dark runs of the scanned column,
/// all of them above the scanner's cursor.
pub open spec fn window_inv(img: Image, sc: SegmentScanner, q: Seq<Segment>) -> bool {
    &&& q.len() <= 5
    &&& (forall|i: int|
        0 <= i < q.len() ==> {
            &&& (#[trigger] q[i]).x == sc.x
            &&& 1 <= q[i].y_min <= q[i].y_max
            &&& q[i].y_max + 1 < img.height
        })
    &&& (forall|i: int| 0 <= i < q.len() - 1 ==> (#[trigger] q[i]).y_max < q[i + 1].y_min)
    &&& (q.len() > 0 ==> (if sc.is_white {
        q.last().y_max <= sc.cursor
    } else {
        q.last().y_max < sc.dark_start
    }))
}

/// What one `StaffScanner::next` call does to the segment scanner and the
/// window: segments are consumed until one completes a five-segment window
/// (`true`: a crossing is emitted from that window) or the column is
/// exhausted (`false`).
pub open spec fn spec_staff_next(img: Image, sc: SegmentScanner, q: Seq<Segment>) -> (
    bool,
    SegmentScanner,
    Seq<Segment>,
)
    decreases img.height - sc.cursor
        via spec_staff_next_decreases
{
    let (r, sc2) = spec_seg_next(img, sc);
    match r {
        None => (false, sc2, q),
        Some(seg) => {
            let q2 = if q.len() >= 5 {
                q.remove(0).push(seg)
            } else {
                q.push(seg)
            };
            if q2.len() == 5 {
                (true, sc2, q2)
            } else {
                spec_staff_next(img, sc2, q2)
            }
        },
    }
}

#[via_fn]
proof fn spec_staff_next_decreases(img: Image, sc: SegmentScanner, q: Seq<Segment>) {
    lemma_seg_next_cursor(img, sc);
}

/// One staff-scanner step never moves the cursor back, and moves it strictly
/// forward whenever it emits a crossing.
pub proof fn lemma_staff_next_cursor(img: Image, sc: SegmentScanner, q: Seq<Segment>)
    ensures
        ({
            let (emitted, sc2, q2) = spec_staff_next(img, sc, q);
            emitted ==> sc.cursor < sc2.cursor < img.height
        }),
    decreases img.height - sc.cursor,
{
    let (r, sc2) = spec_seg_next(img, sc);
    lemma_seg_next_cursor(img, sc);
    match r {
        None => {},
        Some(seg) => {
            let q2 = if q.len() >= 5 {
                q.remove(0).push(seg)
            } else {
                q.push(seg)
            };
            if q2.len() != 5 {
                lemma_staff_next_cursor(img, sc2, q2);
            }
        },
    }
}

impl StaffScanner {
    /// The scanner state is consistent with the image it walks.
    pub open spec fn inv(self, img: Image) -> bool {
        self.seg.inv(img) && window_inv(img, self.seg, self.queue@)
    }

    /// Start scanning column `start_x` from row `start_y`.
    pub fn new(img: &Image, start_x: usize, start_y: usize) -> (ss: StaffScanner)
        requires
            img.wf(),
            start_x < img.width,
            start_y < img.height,
        ensures
            ss.seg == (SegmentScanner {
                x: start_x,
                cursor: start_y,
                is_white: true,
                dark_start: 0,
            }),
            ss.queue@ == Seq::<Segment>::empty(),
            ss.inv(*img),
    {
        let seg = SegmentScanner::new(img, start_x, start_y);
        let ss = StaffScanner { seg, queue: Vec::new() };
        proof {
            assert(ss.queue@ =~= Seq::<Segment>::empty());
        }
        ss
    }

    /// Advance to the next five-segment window and emit the crossing built
    /// from it, or return `None` when the column is exhausted.
    pub fn next(&mut self, img: &Image) -> (r: Option<StaffCross>)
        requires
            img.wf(),
            old(self).inv(*img),
        ensures
            ({
                let (emitted, sc2, q2) = spec_staff_next(*img, old(self).seg, old(self).queue@);
                &&& final(self).seg == sc2
                &&& final(self).queue@ == q2
                &&& (r is Some) == emitted
                &&& match r {
                    Some(c) => {
                        &&& cross_rep(c) == (q2.last().x as int, window_spans(q2))
                        &&& c.wf()
                    },
                    None => true,
                }
            }),
            final(self).inv(*img),
            r is Some ==> old(self).seg.cursor < final(self).seg.cursor,
    {
        loop
            invariant
                img.wf(),
                self.inv(*img),
                old(self).seg.cursor <= self.seg.cursor,
                spec_staff_next(*img, self.seg, self.queue@) == spec_staff_next(
                    *img,
                    old(self).seg,
                    old(self).queue@,
                ),
            decreases img.height - self.seg.cursor,
        {
            let ghost seg_before = self.seg;
            let ghost q_before = self.queue@;
            proof {
                lemma_seg_next(*img, self.seg);
            }
            let m = self.seg.next(img);
            match m {
                None => {
                    return None;
                },
                Some(seg) => {
                    if self.queue.len() >= 5 {
                        self.queue.remove(0);
                    }
                    self.queue.push(seg);
                    let ghost q2 = self.queue@;
                    proof {
                        if q_before.len() >= 5 {
                            assert(q2 =~= q_before.remove(0).push(seg));
                        } else {
                            assert(q2 =~= q_before.push(seg));
                        }
                    }
                    if self.queue.len() == 5 {
                        let q0 = self.queue[0];
                        let q1 = self.queue[1];
                        let q2e = self.queue[2];
                        let q3 = self.queue[3];
                        let q4 = self.queue[4];
                        let c = StaffCross {
                            x: q4.x,
                            spans: [
                                Span { y_min: q0.y_min, y_max: q0.y_max },
                                Span { y_min: q1.y_min, y_max: q1.y_max },
                                Span { y_min: q2e.y_min, y_max: q2e.y_max },
                                Span { y_min: q3.y_min, y_max: q3.y_max },
                                Span { y_min: q4.y_min, y_max: q4.y_max },
                            ],
                        };
                        proof {
                            assert(c.spans@ =~= window_spans(self.queue@));
                            assert(c.wf());
                        }
                        return Some(c);
                    }
                },
            }
        }
    }
}

/// All plausible crossings of one column scan, oldest first, starting from
/// the given scanner state.
pub open spec fn spec_column_crosses(img: Image, sc: SegmentScanner, q: Seq<Segment>) -> Seq<
    (int, Seq<Span>),
>
    decreases img.height - sc.cursor
        via spec_column_crosses_decreases
{
    let (emitted, sc2, q2) = spec_staff_next(img, sc, q);
    if emitted {
        let rest = spec_column_crosses(img, sc2, q2);
        if rep_plausible(window_spans(q2)) {
            seq![(q2.last().x as int, window_spans(q2))] + rest
        } else {
            rest
        }
    } else {
        Seq::empty()
    }
}

#[via_fn]
proof fn spec_column_crosses_decreases(img: Image, sc: SegmentScanner, q: Seq<Segment>) {
    lemma_staff_next_cursor(img, sc, q);
}

/// All plausible crossings of the image, walking columns `x, x+1, ...` and
/// scanning those at multiples of `stride` from row zero.
pub open spec fn spec_scan_columns(img: Image, stride: int, x: int) -> Seq<(int, Seq<Span>)>
    decreases img.width - x,
{
    if x < 0 || x >= img.width || stride <= 0 {
        Seq::empty()
    } else {
        let here = if x % stride == 0 {
            spec_column_crosses(
                img,
                SegmentScanner { x: x as usize, cursor: 0, is_white: true, dark_start: 0 },
                Seq::empty(),
            )
        } else {
            Seq::empty()
        };
        here + spec_scan_columns(img, stride, x + 1)
    }
}

/// What `scan_entire_image` returns: one column scan per stride step across
/// the image, all plausible crossings concatenated in column order.  An
/// image without rows yields nothing (there is no row to scan).
pub open spec fn spec_scan_entire_image(img: Image, num_lines: int) -> Seq<(int, Seq<Span>)> {
    let stride = if (img.width as int / num_lines) < 1 {
        1int
    } else {
        img.width as int / num_lines
    };
    if img.height == 0 {
        Seq::empty()
    } else {
        spec_scan_columns(img, stride, 0)
    }
}

/// Scan the whole image along evenly spaced columns and collect every
/// plausible staff crossing, in ascending column order.
pub fn scan_entire_image(img: &Image, num_scan_lines: usize) -> (r: Vec<StaffCross>)
    requires
        img.wf(),
        num_scan_lines >= 1,
    ensures
        r@.map_values(|c: StaffCross| cross_rep(c)) == spec_scan_entire_image(
            *img,
            num_scan_lines as int,
        ),
        forall|i: int|
            0 <= i < r@.len() ==> (#[trigger] r@[i]).wf() && rep_plausible(r@[i].spans@),
{
    let ghost f = |c: StaffCross| cross_rep(c);
    let mut results: Vec<StaffCross> = Vec::new();
    let ghost total = spec_scan_entire_image(*img, num_scan_lines as int);
    if img.height() == 0 {
        proof {
            assert(results@.map_values(f) =~= total);
        }
        return results;
    }
    let raw_stride = img.width() / num_scan_lines;
    let stride = if raw_stride < 1 {
        1
    } else {
        raw_stride
    };
    let mut x: usize = 0;
    while x < img.width()
        invariant
            img.wf(),
            img.height >= 1,
            1 <= stride,
            x <= img.width,
            f == (|c: StaffCross| cross_rep(c)),
            results@.map_values(f) + spec_scan_columns(*img, stride as int, x as int) == total,
            forall|i: int|
                0 <= i < results@.len() ==> (#[trigger] results@[i]).wf() && rep_plausible(
                    results@[i].spans@,
                ),
        decreases img.width - x,
    {
        if x % stride == 0 {
            let mut scanner = StaffScanner::new(img, x, 0);
            let ghost rest = spec_scan_columns(*img, stride as int, x as int + 1);
            proof {
                assert(spec_scan_columns(*img, stride as int, x as int) == spec_column_crosses(
                    *img,
                    scanner.seg,
                    scanner.queue@,
                ) + rest);
                assert(results@.map_values(f) + (spec_column_crosses(
                    *img,
                    scanner.seg,
                    scanner.queue@,
                ) + rest) =~= results@.map_values(f) + spec_column_crosses(
                    *img,
                    scanner.seg,
                    scanner.queue@,
                ) + rest);
            }
            loop
                invariant_except_break
                    results@.map_values(f) + spec_column_crosses(*img, scanner.seg, scanner.queue@)
                        + rest == total,
                invariant
                    img.wf(),
                    scanner.inv(*img),
                    f == (|c: StaffCross| cross_rep(c)),
                    rest == spec_scan_columns(*img, stride as int, x as int + 1),
                    forall|i: int|
                        0 <= i < results@.len() ==> (#[trigger] results@[i]).wf()
                            && rep_plausible(results@[i].spans@),
                ensures
                    results@.map_values(f) + rest == total,
                    forall|i: int|
                        0 <= i < results@.len() ==> (#[trigger] results@[i]).wf()
                            && rep_plausible(results@[i].spans@),
                decreases img.height - scanner.seg.cursor,
            {
                let ghost sc_before = scanner.seg;
                let ghost q_before = scanner.queue@;
                let ghost col_before = spec_column_crosses(*img, sc_before, q_before);
                match scanner.next(img) {
                    None => {
                        proof {
                            assert(col_before =~= Seq::<(int, Seq<Span>)>::empty());
                            assert(results@.map_values(f) + col_before =~= results@.map_values(f));
                            assert(results@.map_values(f) + rest =~= results@.map_values(f)
                                + col_before + rest);
                        }
                        break ;
                    },
                    Some(c) => {
                        let ghost col_after = spec_column_crosses(
                            *img,
                            scanner.seg,
                            scanner.queue@,
                        );
                        let ghost rep = (scanner.queue@.last().x as int, window_spans(
                            scanner.queue@,
                        ));
                        let keep = c.is_plausible();
                        proof {
                            if keep {
                                assert(col_before == seq![rep] + col_after);
                            } else {
                                assert(col_before == col_after);
                            }
                        }
                        if keep {
                            let ghost before_push = results@;
                            results.push(c);
                            proof {
                                assert(results@.map_values(f) =~= before_push.map_values(f).push(
                                    rep,
                                ));
                                assert(before_push.map_values(f).push(rep) + col_after
                                    =~= before_push.map_values(f) + (seq![rep] + col_after));
                                assert(before_push.map_values(f) + (seq![rep] + col_after)
                                    =~= before_push.map_values(f) + col_before);
                                assert(results@.map_values(f) + col_after + rest
                                    =~= before_push.map_values(f) + col_before + rest);
                            }
                        }
                    },
                }
            }
            proof {
                assert(spec_scan_columns(*img, stride as int, x as int + 1) == spec_scan_columns(
                    *img,
                    stride as int,
                    x as int + 1,
                ));
            }
        } else {
            proof {
                assert(x as int % stride as int != 0);
                assert(spec_scan_columns(*img, stride as int, x as int) == Seq::<
                    (int, Seq<Span>),
                >::empty() + spec_scan_columns(*img, stride as int, x as int + 1));
                assert(Seq::<(int, Seq<Span>)>::empty() + spec_scan_columns(
                    *img,
                    stride as int,
                    x as int + 1,
                ) =~= spec_scan_columns(*img, stride as int, x as int + 1));
            }
        }
        x = x + 1;
    }
    proof {
        assert(spec_scan_columns(*img, stride as int, x as int) =~= Seq::<
            (int, Seq<Span>),
        >::empty());
        assert(results@.map_values(f) + spec_scan_columns(*img, stride as int, x as int)
            =~= results@.map_values(f));
    }
    results
}

} // verus!
