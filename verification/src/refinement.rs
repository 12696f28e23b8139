//! Refinement of a fitted staff line into finite staff and blank stretches.
//!
//! Along the fitted ruling, every two pixels, the image is probed at the
//! rows where staff lines and staff spaces should lie, and the brightness
//! pattern is classified into evidence classes.  A small span-tracking state
//! machine then partitions the ruling into alternating staff segments and
//! confirmed blank segments.

use vstd::prelude::*;
use crate::geometry::spec_entry_exit;
use crate::geometry::spec_perp_sample;
use crate::geometry::spec_point_at;
use crate::geometry::spec_staff_new;
use crate::geometry::Staff;
use crate::image::clamped_pixel;
use crate::image::Image;
use crate::image::LUMA_MID;

verus! {

/// The probe step along the ruling: two pixels, in fixed point.
pub const STEP_FP: i64 = 0x2_0000;

/// Evidence strength at one probe position along the ruling.
#[derive(Clone, Copy, Debug, PartialEq, Eq, Structural)]
pub enum StaffEvidenceClass {
    /// Strong evidence for a blank, featureless surface.
    Blank,
    /// No evidence for staff lines or staff spaces.
    Negative,
    /// Weak evidence for staff lines or staff spaces, but not both.
    Uncertain,
    /// Weak evidence for staff lines and staff spaces.
    Weak,
    /// Good evidence for staff lines or staff spaces.
    Partial,
    /// Good evidence for staff lines and staff spaces.
    Strong,
}

/// An exact average of rounded brightness values: `num` of `den` probed
/// pixels were bright.
#[derive(Clone, Copy, Debug, PartialEq, Eq, Structural)]
pub struct Ratio {
    pub num: u32,
    pub den: u32,
}

/// Classification of one probe position from its three brightness averages.
/// A nearly all-bright wide neighbourhood is blank, whatever else holds;
/// otherwise dark line probes (average below 1/2, all dark below 1/10) and
/// bright space probes (average above 1/2, all bright above 9/10) grade the
/// evidence.
pub open spec fn spec_classify(line_avg: Ratio, space_avg: Ratio, blank_avg: Ratio) -> StaffEvidenceClass {
    let has_lines = 2 * line_avg.num < line_avg.den;
    let has_spaces = 2 * space_avg.num > space_avg.den;
    let has_all_lines = 10 * line_avg.num < line_avg.den;
    let has_all_spaces = 10 * space_avg.num > 9 * space_avg.den;
    let is_gap = 20 * blank_avg.num > 19 * blank_avg.den;
    if is_gap {
        StaffEvidenceClass::Blank
    } else if has_all_lines && has_all_spaces {
        StaffEvidenceClass::Strong
    } else if (has_all_lines && has_spaces) || (has_lines && has_all_spaces) {
        StaffEvidenceClass::Partial
    } else if has_lines && has_spaces {
        StaffEvidenceClass::Weak
    } else if !has_lines && !has_spaces {
        StaffEvidenceClass::Negative
    } else {
        StaffEvidenceClass::Uncertain
    }
}

/// Classify one probe position; exactly `spec_classify`.  The blank test is
/// evaluated first and overrides everything else.
pub fn classify_staff_sample(line_avg: Ratio, space_avg: Ratio, blank_avg: Ratio) -> (r:
    StaffEvidenceClass)
    requires
        line_avg.num <= 0x100_0000,
        line_avg.den <= 0x100_0000,
        space_avg.num <= 0x100_0000,
        space_avg.den <= 0x100_0000,
        blank_avg.num <= 0x100_0000,
        blank_avg.den <= 0x100_0000,
    ensures
        r == spec_classify(line_avg, space_avg, blank_avg),
{
    let has_lines = 2 * (line_avg.num as u64) < line_avg.den as u64;
    let has_spaces = 2 * (space_avg.num as u64) > space_avg.den as u64;
    let has_all_lines = 10 * (line_avg.num as u64) < line_avg.den as u64;
    let has_all_spaces = 10 * (space_avg.num as u64) > 9 * (space_avg.den as u64);
    let is_gap = 20 * (blank_avg.num as u64) > 19 * (blank_avg.den as u64);
    if is_gap {
        StaffEvidenceClass::Blank
    } else if has_all_lines && has_all_spaces {
        StaffEvidenceClass::Strong
    } else if (has_all_lines && has_spaces) || (has_lines && has_all_spaces) {
        StaffEvidenceClass::Partial
    } else if has_lines && has_spaces {
        StaffEvidenceClass::Weak
    } else if !has_lines && !has_spaces {
        StaffEvidenceClass::Negative
    } else {
        StaffEvidenceClass::Uncertain
    }
}

/// Whether perpendicular probe `j` of `num` at ruling parameter `t` lands on
/// a bright pixel (rounded brightness one).
pub open spec fn sample_is_bright(
    img: Image,
    staff: Staff,
    t: int,
    num: int,
    sep: int,
    j: int,
) -> bool {
    let p = spec_perp_sample(staff, t, sep, num, j);
    img.spec_index(
        clamped_pixel(p.x as int, img.width as int),
        clamped_pixel(p.y as int, img.height as int),
    ).y >= LUMA_MID
}

/// How many of probes `j..num` are bright.
pub open spec fn bright_count(img: Image, staff: Staff, t: int, num: int, sep: int, j: int) -> int
    decreases num - j,
{
    if j < 0 || j >= num {
        0
    } else {
        (if sample_is_bright(img, staff, t, num, sep, j) {
            1int
        } else {
            0int
        }) + bright_count(img, staff, t, num, sep, j + 1)
    }
}

/// Average rounded brightness over `num_samples` probes spaced `sample_sep`
/// apart across the ruling at parameter `t`: the exact count of bright
/// probes over the probe count.
pub fn staff_sample_average(
    img: &Image,
    staff: &Staff,
    t: i64,
    num_samples: usize,
    sample_sep: i64,
) -> (r: Ratio)
    requires
        img.wf(),
        img.width >= 1,
        img.height >= 1,
        staff.wf(),
        -crate::geometry::MAX_TIME_FP <= t <= crate::geometry::MAX_TIME_FP,
        1 <= num_samples <= 64,
        0 <= sample_sep <= 2 * crate::geometry::MAX_WIDTH_FP,
    ensures
        r.num == bright_count(*img, *staff, t as int, num_samples as int, sample_sep as int, 0),
        r.num <= num_samples,
        r.den == num_samples,
{
    let samples = staff.perpendicular_samples(t, num_samples, sample_sep);
    let mut count: u32 = 0;
    let mut j: usize = 0;
    while j < num_samples
        invariant
            img.wf(),
            img.width >= 1,
            img.height >= 1,
            samples@.len() == num_samples,
            num_samples <= 64,
            forall|jj: int|
                0 <= jj < num_samples ==> #[trigger] samples@[jj] == spec_perp_sample(
                    *staff,
                    t as int,
                    sample_sep as int,
                    num_samples as int,
                    jj,
                ),
            j <= num_samples,
            count <= j,
            count + bright_count(
                *img,
                *staff,
                t as int,
                num_samples as int,
                sample_sep as int,
                j as int,
            ) == bright_count(*img, *staff, t as int, num_samples as int, sample_sep as int, 0),
        decreases num_samples - j,
    {
        let p = samples[j];
        let px = img.sample_point(p.x, p.y);
        if px.y >= LUMA_MID {
            count = count + 1;
        }
        j = j + 1;
    }
    Ratio { num: count, den: num_samples as u32 }
}

/// The evidence class at ruling parameter `t`: five line probes and four
/// space probes at the staff's line separation, and twenty wide probes at
/// 6/25 of it, averaged and classified.
pub open spec fn spec_class_at(img: Image, staff: Staff, t: int) -> StaffEvidenceClass {
    let sep = staff.line_width + staff.space_width;
    let blank_sep = sep * 6 / 25;
    spec_classify(
        Ratio { num: bright_count(img, staff, t, 5, sep as int, 0) as u32, den: 5 },
        Ratio { num: bright_count(img, staff, t, 4, sep as int, 0) as u32, den: 4 },
        Ratio { num: bright_count(img, staff, t, 20, blank_sep, 0) as u32, den: 20 },
    )
}

/// The classes of all probe positions from cursor `t` (exclusive) to `t_max`:
/// one probe every `STEP_FP`, while the next probe still lies before `t_max`.
pub open spec fn class_seq(img: Image, staff: Staff, t: int, t_max: int) -> Seq<
    StaffEvidenceClass,
>
    decreases t_max - t,
{
    if t + (STEP_FP as int) >= t_max {
        Seq::empty()
    } else {
        seq![spec_class_at(img, staff, t + (STEP_FP as int))] + class_seq(
            img,
            staff,
            t + (STEP_FP as int),
            t_max,
        )
    }
}

/// Probe `k` of the class sequence sits at `t0 + (k+1) * STEP_FP`, strictly
/// before `t_max`.
pub proof fn lemma_class_seq_index(img: Image, staff: Staff, t0: int, t_max: int, k: int)
    requires
        0 <= k < class_seq(img, staff, t0, t_max).len(),
    ensures
        t0 + (k + 1) * (STEP_FP as int) < t_max,
        class_seq(img, staff, t0, t_max)[k] == spec_class_at(
            img,
            staff,
            t0 + (k + 1) * (STEP_FP as int),
        ),
    decreases t_max - t0,
{
    if k == 0 {
    } else {
        lemma_class_seq_index(img, staff, t0 + (STEP_FP as int), t_max, k - 1);
        assert(t0 + (STEP_FP as int) + k * (STEP_FP as int) == t0 + (k + 1) * (STEP_FP as int))
            by (nonlinear_arith);
    }
}

/// State of the span-tracking machine: the index where the current gap
/// started (`-1` while outside a gap), where the current candidate span
/// started (`-1` until the first closed gap), a run counter for weak
/// evidence, and the spans closed so far.
pub struct PartitionState {
    pub gap_start: int,
    pub span_start: int,
    pub weak: int,
    pub staff_spans: Seq<(int, int)>,
    pub blank_spans: Seq<(int, int)>,
}

pub open spec fn partition_init() -> PartitionState {
    PartitionState {
        gap_start: -1,
        span_start: -1,
        weak: 0,
        staff_spans: Seq::empty(),
        blank_spans: Seq::empty(),
    }
}

/// One step of the machine on the class of probe `i` (of `n`).  Outside a
/// gap, a blank probe opens a gap at once and a long enough run of negative
/// probes opens one too, closing the preceding span if it is long enough.
/// Inside a gap, a long enough run of weak probes, any probe with clear
/// staff evidence, or the final probe closes the gap, keeping it if it is
/// long enough.
pub open spec fn partition_step(
    st: PartitionState,
    cl: StaffEvidenceClass,
    i: int,
    n: int,
    min_len: int,
) -> PartitionState {
    if st.gap_start < 0 {
        let weak2 = if cl is Negative {
            st.weak + 1
        } else {
            st.weak
        };
        let start_gap = cl is Blank || (cl is Negative && weak2 > min_len);
        if start_gap {
            let staff2 = if i - 1 - st.span_start >= min_len {
                st.staff_spans.push((st.span_start, i - 1))
            } else {
                st.staff_spans
            };
            PartitionState {
                gap_start: i,
                span_start: st.span_start,
                weak: 0,
                staff_spans: staff2,
                blank_spans: st.blank_spans,
            }
        } else {
            PartitionState { weak: weak2, ..st }
        }
    } else {
        let weak2 = if cl is Weak {
            st.weak + 1
        } else if !(cl is Negative || cl is Blank || cl is Uncertain) {
            0
        } else {
            st.weak
        };
        let end_gap = (cl is Weak && weak2 > min_len) || (!(cl is Weak) && !(cl is Negative
            || cl is Blank || cl is Uncertain));
        if end_gap || i == n - 1 {
            let blank2 = if i - 1 - st.gap_start >= min_len {
                st.blank_spans.push((st.gap_start, i - 1))
            } else {
                st.blank_spans
            };
            PartitionState {
                gap_start: -1,
                span_start: i,
                weak: 0,
                staff_spans: st.staff_spans,
                blank_spans: blank2,
            }
        } else {
            PartitionState { weak: weak2, ..st }
        }
    }
}

/// The machine run over the first `i` probes of the class sequence.
pub open spec fn partition_run_to(
    classes: Seq<StaffEvidenceClass>,
    i: int,
    min_len: int,
) -> PartitionState
    decreases i,
{
    if i <= 0 {
        partition_init()
    } else {
        partition_step(
            partition_run_to(classes, i - 1, min_len),
            classes[i - 1],
            i - 1,
            classes.len() as int,
            min_len,
        )
    }
}

/// Minimum probe count for a span or gap to be kept (and for a weak run to
/// flip the machine): the expected staff height in probe steps, rounded,
/// but no less than two.
pub open spec fn spec_min_len(staff: Staff) -> int {
    let height = 5 * staff.line_width + 4 * staff.space_width;
    let rounded = (height + 0x1_0000) / (STEP_FP as int);
    if rounded < 2 {
        2
    } else {
        rounded
    }
}

/// A fixed-point point clamped into the coordinate range the geometry
/// accepts.  A converted span endpoint that lies inside the frame is never
/// moved; the clamp only guards against rulings that graze the frame at an
/// extreme angle.
pub open spec fn spec_clamp_pt(p: crate::geometry::PointFp) -> crate::geometry::PointFp {
    crate::geometry::PointFp { x: clamp_coord(p.x), y: clamp_coord(p.y) }
}

pub open spec fn clamp_coord(c: i64) -> i64 {
    if c < -crate::geometry::MAX_COORD_FP {
        (-crate::geometry::MAX_COORD_FP) as i64
    } else if c > crate::geometry::MAX_COORD_FP {
        crate::geometry::MAX_COORD_FP as i64
    } else {
        c
    }
}

/// The finite rulings the closed spans denote: probe indices back to ruling
/// parameters (`t_min + (1 + index) * STEP_FP`), then to endpoints (clamped
/// into coordinate range).
pub open spec fn spans_to_staffs(staff: Staff, t_min: int, spans: Seq<(int, int)>) -> Seq<Staff> {
    Seq::new(
        spans.len(),
        |i: int|
            spec_staff_new(
                spec_clamp_pt(spec_point_at(staff, t_min + (1 + spans[i].0) * (STEP_FP as int))),
                spec_clamp_pt(spec_point_at(staff, t_min + (1 + spans[i].1) * (STEP_FP as int))),
                staff.line_width,
                staff.space_width,
            ),
    )
}

/// What `partition_staff` returns: classify every probe position between the
/// ruling's entry into and exit from the frame, run the span-tracking
/// machine over the classes, and convert its staff and blank spans into
/// finite rulings.  A ruling that misses the frame yields nothing.
pub open spec fn spec_partition_staff(img: Image, staff: Staff) -> (Seq<Staff>, Seq<Staff>) {
    let w_fp = img.width * 0x1_0000;
    let h_fp = img.height * 0x1_0000;
    match spec_entry_exit(staff, w_fp as int, h_fp as int) {
        None => (Seq::empty(), Seq::empty()),
        Some(ts) => {
            let classes = class_seq(img, staff, ts.0, ts.1);
            let fin = partition_run_to(classes, classes.len() as int, spec_min_len(staff));
            (
                spans_to_staffs(staff, ts.0, fin.staff_spans),
                spans_to_staffs(staff, ts.0, fin.blank_spans),
            )
        },
    }
}


/// Partition a fitted ruling into candidate staff segments and confirmed
/// blank segments; exactly `spec_partition_staff`.
pub fn partition_staff(img: &Image, staff: &Staff) -> (r: (Vec<Staff>, Vec<Staff>))
    requires
        img.wf(),
        img.width >= 1,
        img.height >= 1,
        staff.wf(),
    ensures
        r.0@ == spec_partition_staff(*img, *staff).0,
        r.1@ == spec_partition_staff(*img, *staff).1,
{
    let staff_segments: Vec<Staff> = Vec::new();
    let blank_segments: Vec<Staff> = Vec::new();
    let times = staff.screen_entry_exit_times(img.width(), img.height());
    let (t_min, t_max) = match times {
        None => {
            proof {
                assert(staff_segments@ =~= spec_partition_staff(*img, *staff).0);
                assert(blank_segments@ =~= spec_partition_staff(*img, *staff).1);
            }
            return (staff_segments, blank_segments);
        },
        Some(ts) => ts,
    };
    let ghost full_classes = class_seq(*img, *staff, t_min as int, t_max as int);

    // Classify one probe every two pixels along the ruling.
    let sep = staff.line_sep();
    let blank_sep = (sep * 6) / 25;
    let mut classes: Vec<StaffEvidenceClass> = Vec::new();
    let mut t = t_min;
    while t + STEP_FP < t_max
        invariant
            img.wf(),
            img.width >= 1,
            img.height >= 1,
            staff.wf(),
            sep == staff.line_width + staff.space_width,
            blank_sep == (staff.line_width + staff.space_width) * 6 / 25,
            -0x2_0000_0000_0000 <= t_min <= t_max <= 0x2_0000_0000_0000,
            t_min <= t <= t_max,
            t == t_min + classes@.len() * STEP_FP,
            full_classes == class_seq(*img, *staff, t_min as int, t_max as int),
            classes@ + class_seq(*img, *staff, t as int, t_max as int) == full_classes,
        decreases t_max - t,
    {
        let ghost t_before = t as int;
        t = t + STEP_FP;
        let line_avg = staff_sample_average(img, staff, t, 5, sep);
        let space_avg = staff_sample_average(img, staff, t, 4, sep);
        let blank_avg = staff_sample_average(img, staff, t, 20, blank_sep);
        let cls = classify_staff_sample(line_avg, space_avg, blank_avg);
        proof {
            assert(cls == spec_class_at(*img, *staff, t as int));
            assert(class_seq(*img, *staff, t_before, t_max as int) == seq![cls] + class_seq(
                *img,
                *staff,
                t as int,
                t_max as int,
            ));
        }
        let ghost before_push = classes@;
        classes.push(cls);
        proof {
            assert(classes@ =~= before_push.push(cls));
            assert(before_push.push(cls) + class_seq(*img, *staff, t as int, t_max as int)
                =~= before_push + (seq![cls] + class_seq(*img, *staff, t as int, t_max as int)));
        }
    }
    proof {
        assert(class_seq(*img, *staff, t as int, t_max as int) =~= Seq::<
            StaffEvidenceClass,
        >::empty());
        assert(classes@ =~= full_classes);
    }

    // Span thresholds from the expected staff height.
    let height_fp = 5 * staff.line_width + 4 * staff.space_width;
    let min_len_raw = (height_fp + 0x1_0000) / STEP_FP;
    let min_len: i64 = if min_len_raw < 2 {
        2
    } else {
        min_len_raw
    };
    proof {
        assert(min_len as int == spec_min_len(*staff));
    }

    // Run the span-tracking machine over the classes.
    let n = classes.len();
    let ghost nn = n as int;
    let mut gap_start: i64 = -1;
    let mut span_start: i64 = -1;
    let mut weak: i64 = 0;
    let mut staff_spans: Vec<(i64, i64)> = Vec::new();
    let mut blank_spans: Vec<(i64, i64)> = Vec::new();
    let mut i: usize = 0;
    proof {
        assert(staff_spans@.map_values(|p: (i64, i64)| (p.0 as int, p.1 as int)) =~= Seq::<
            (int, int),
        >::empty());
        assert(blank_spans@.map_values(|p: (i64, i64)| (p.0 as int, p.1 as int)) =~= Seq::<
            (int, int),
        >::empty());
    }
    while i < n
        invariant
            n == classes@.len(),
            nn == n as int,
            n <= 0x1_0000_0000_0000,
            i <= n,
            2 <= min_len <= 0x1_0000_0000_0000,
            -1 <= gap_start < nn,
            -1 <= span_start < nn,
            0 <= weak <= i,
            ({
                let st = partition_run_to(classes@, i as int, min_len as int);
                &&& st.gap_start == gap_start as int
                &&& st.span_start == span_start as int
                &&& st.weak == weak as int
                &&& st.staff_spans == staff_spans@.map_values(
                    |p: (i64, i64)| (p.0 as int, p.1 as int),
                )
                &&& st.blank_spans == blank_spans@.map_values(
                    |p: (i64, i64)| (p.0 as int, p.1 as int),
                )
            }),
            forall|k: int|
                0 <= k < staff_spans@.len() ==> -1 <= (#[trigger] staff_spans@[k]).0
                    && staff_spans@[k].0 + 2 <= staff_spans@[k].1 && staff_spans@[k].1 < nn,
            forall|k: int|
                0 <= k < blank_spans@.len() ==> 0 <= (#[trigger] blank_spans@[k]).0
                    && blank_spans@[k].0 + 2 <= blank_spans@[k].1 && blank_spans@[k].1 < nn,
        decreases n - i,
    {
        let cl = classes[i];
        let ghost st_before = partition_run_to(classes@, i as int, min_len as int);
        let ghost pair_cast = |p: (i64, i64)| (p.0 as int, p.1 as int);
        if gap_start < 0 {
            if cl == StaffEvidenceClass::Negative {
                weak = weak + 1;
            }
            let start_gap = cl == StaffEvidenceClass::Blank || (cl == StaffEvidenceClass::Negative
                && weak > min_len);
            if start_gap {
                if (i as i64) - 1 - span_start >= min_len {
                    let ghost before = staff_spans@;
                    staff_spans.push((span_start, (i as i64) - 1));
                    proof {
                        assert(staff_spans@.map_values(pair_cast) =~= before.map_values(
                            pair_cast,
                        ).push((span_start as int, i as int - 1)));
                    }
                }
                gap_start = i as i64;
                weak = 0;
            }
        } else {
            if cl == StaffEvidenceClass::Weak {
                weak = weak + 1;
            } else if !(cl == StaffEvidenceClass::Negative || cl == StaffEvidenceClass::Blank || cl
                == StaffEvidenceClass::Uncertain) {
                weak = 0;
            }
            let end_gap = (cl == StaffEvidenceClass::Weak && weak > min_len) || (cl
                != StaffEvidenceClass::Weak && !(cl == StaffEvidenceClass::Negative || cl
                == StaffEvidenceClass::Blank || cl == StaffEvidenceClass::Uncertain));
            if end_gap || i == n - 1 {
                if (i as i64) - 1 - gap_start >= min_len {
                    let ghost before = blank_spans@;
                    blank_spans.push((gap_start, (i as i64) - 1));
                    proof {
                        assert(blank_spans@.map_values(pair_cast) =~= before.map_values(
                            pair_cast,
                        ).push((gap_start as int, i as int - 1)));
                    }
                }
                weak = 0;
                gap_start = -1;
                span_start = i as i64;
            }
        }
        i = i + 1;
        proof {
            assert(partition_run_to(classes@, i as int, min_len as int) == partition_step(
                st_before,
                classes@[i - 1],
                i - 1,
                nn,
                min_len as int,
            ));
        }
    }

    // Convert the closed spans back to finite rulings.
    let staffs = spans_to_segments(staff, t_min, t_max, n, &staff_spans);
    let blanks = spans_to_segments(staff, t_min, t_max, n, &blank_spans);
    proof {
        let st = partition_run_to(classes@, nn, min_len as int);
        assert(staffs@ =~= spans_to_staffs(
            *staff,
            t_min as int,
            st.staff_spans,
        ));
        assert(blanks@ =~= spans_to_staffs(
            *staff,
            t_min as int,
            st.blank_spans,
        ));
    }
    (staffs, blanks)
}

/// Convert closed sample spans into finite rulings.
fn spans_to_segments(staff: &Staff, t_min: i64, t_max: i64, n: usize, spans: &Vec<(i64, i64)>) -> (r:
    Vec<Staff>)
    requires
        staff.wf(),
        -0x2_0000_0000_0000 <= t_min <= t_max <= 0x2_0000_0000_0000,
        n <= 0x1_0000_0000_0000,
        t_min + n * STEP_FP <= t_max,
        forall|k: int|
            0 <= k < spans@.len() ==> -1 <= (#[trigger] spans@[k]).0 && spans@[k].0 + 2
                <= spans@[k].1 && spans@[k].1 < n,
    ensures
        r@ == spans_to_staffs(
            *staff,
            t_min as int,
            spans@.map_values(|p: (i64, i64)| (p.0 as int, p.1 as int)),
        ),
{
    let ghost pair_cast = |p: (i64, i64)| (p.0 as int, p.1 as int);
    let mut r: Vec<Staff> = Vec::new();
    let mut k: usize = 0;
    while k < spans.len()
        invariant
            staff.wf(),
            -0x2_0000_0000_0000 <= t_min <= t_max <= 0x2_0000_0000_0000,
            n <= 0x1_0000_0000_0000,
            t_min + n * STEP_FP <= t_max,
            forall|kk: int|
                0 <= kk < spans@.len() ==> -1 <= (#[trigger] spans@[kk]).0 && spans@[kk].0 + 2
                    <= spans@[kk].1 && spans@[kk].1 < n,
            k <= spans@.len(),
            r@.len() == k,
            pair_cast == (|p: (i64, i64)| (p.0 as int, p.1 as int)),
            forall|kk: int|
                0 <= kk < k ==> #[trigger] r@[kk] == spans_to_staffs(
                    *staff,
                    t_min as int,
                    spans@.map_values(|p: (i64, i64)| (p.0 as int, p.1 as int)),
                )[kk],
        decreases spans@.len() - k,
    {
        let (a, b) = spans[k];
        let t_start = t_min + (1 + a) * STEP_FP;
        let t_end = t_min + (1 + b) * STEP_FP;
        let p_start = clamp_point(staff.point_at_time(t_start));
        let p_end = clamp_point(staff.point_at_time(t_end));
        let seg = Staff::new(p_start, p_end, staff.line_width, staff.space_width);
        r.push(seg);
        k = k + 1;
    }
    proof {
        assert(r@ =~= spans_to_staffs(
            *staff,
            t_min as int,
            spans@.map_values(|p: (i64, i64)| (p.0 as int, p.1 as int)),
        ));
    }
    r
}

/// Clamp a converted endpoint into the coordinate range the geometry
/// accepts; exactly `spec_clamp_pt`.
fn clamp_point(p: crate::geometry::PointFp) -> (r: crate::geometry::PointFp)
    ensures
        r == spec_clamp_pt(p),
        r.in_range(),
{
    crate::geometry::PointFp { x: clamp_c(p.x), y: clamp_c(p.y) }
}

fn clamp_c(c: i64) -> (r: i64)
    ensures
        r == clamp_coord(c),
{
    if c < -crate::geometry::MAX_COORD_FP {
        -crate::geometry::MAX_COORD_FP
    } else if c > crate::geometry::MAX_COORD_FP {
        crate::geometry::MAX_COORD_FP
    } else {
        c
    }
}

/// Extension point of the pipeline: a per-segment acceptance test.  The
/// detection pipeline accepts every segment.
pub fn staff_segment_is_valid(img: &Image, staff: &Staff) -> (r: bool)
    ensures
        r,
{
    true
}

} // verus!
