use optical_music_recognition::geometry::{Line, PointD, PointFp, Staff};
use optical_music_recognition::image::{Image, Pixel};
use optical_music_recognition::model::{StaffCrossLine, StaffCrossLineModel};
use optical_music_recognition::ransac::{
    binomial, calculate_num_iterations, ransac, ransac_multiple, RansacParams,
};
use optical_music_recognition::refinement::{
    classify_staff_sample, partition_staff, staff_sample_average, staff_segment_is_valid, Ratio,
    StaffEvidenceClass,
};
use optical_music_recognition::scanning::{
    scan_entire_image, SegmentScanner, Span, StaffCross, StaffScanner,
};
use rand::SeedableRng;

const FP: i64 = 0x1_0000;

fn white() -> Pixel {
    Pixel { y: 255, cb: 128, cr: 128 }
}

fn dark() -> Pixel {
    Pixel { y: 0, cb: 128, cr: 128 }
}

/// A width x height frame, white except for full-width dark rows.
fn image_with_dark_rows(width: usize, height: usize, dark_rows: &[usize]) -> Image {
    let mut data = Vec::new();
    for row in 0..height {
        for _col in 0..width {
            if dark_rows.contains(&row) {
                data.push(dark());
            } else {
                data.push(white());
            }
        }
    }
    Image::from_raw_parts(width, height, data)
}

fn cross_at(x: usize, spans: [(usize, usize); 5]) -> StaffCross {
    StaffCross::new(
        x,
        [
            Span { y_min: spans[0].0, y_max: spans[0].1 },
            Span { y_min: spans[1].0, y_max: spans[1].1 },
            Span { y_min: spans[2].0, y_max: spans[2].1 },
            Span { y_min: spans[3].0, y_max: spans[3].1 },
            Span { y_min: spans[4].0, y_max: spans[4].1 },
        ],
    )
    .unwrap()
}

#[test]
fn image_index_and_sampling() {
    let img = image_with_dark_rows(4, 3, &[1]);
    assert_eq!(img.index(0, 0).y, 255);
    assert_eq!(img.index(3, 1).y, 0);
    assert!(img.contains(3, 2));
    assert!(!img.contains(4, 0));
    assert!(!img.contains(0, 3));
    // Nearest-neighbour sampling clamps out-of-frame positions.
    assert_eq!(img.sample_point(-5 * FP, FP + FP / 2).y, 0);
    assert_eq!(img.sample_point(100 * FP, 0).y, 255);
}

#[test]
fn segment_scanner_finds_single_dark_run() {
    // White rows 0..=3, dark rows 4..=6, white rows 7..=9.
    let img = image_with_dark_rows(1, 10, &[4, 5, 6]);
    let mut scanner = SegmentScanner::new(&img, 0, 0);
    let seg = scanner.next(&img).expect("one segment");
    assert_eq!(seg.x, 0);
    assert_eq!(seg.y_min, 4);
    assert_eq!(seg.y_max, 6);
    assert!(scanner.next(&img).is_none());
}

#[test]
fn segment_scanner_ignores_run_open_at_bottom() {
    let img = image_with_dark_rows(1, 6, &[4, 5]);
    let mut scanner = SegmentScanner::new(&img, 0, 0);
    assert!(scanner.next(&img).is_none());
}

#[test]
fn staff_scanner_emits_sliding_windows() {
    // Six dark rows give six segments, so two (overlapping) windows of five.
    let img = image_with_dark_rows(1, 30, &[4, 8, 12, 16, 20, 24]);
    let mut scanner = StaffScanner::new(&img, 0, 0);
    let c1 = scanner.next(&img).expect("first window");
    assert_eq!(c1.spans[0], Span { y_min: 4, y_max: 4 });
    assert_eq!(c1.spans[4], Span { y_min: 20, y_max: 20 });
    let c2 = scanner.next(&img).expect("second window");
    assert_eq!(c2.spans[0], Span { y_min: 8, y_max: 8 });
    assert_eq!(c2.spans[4], Span { y_min: 24, y_max: 24 });
    assert!(scanner.next(&img).is_none());
}

#[test]
fn regular_cross_is_plausible() {
    let c = cross_at(3, [(0, 1), (4, 5), (8, 9), (12, 13), (16, 17)]);
    assert!(c.is_plausible());
}

#[test]
fn irregular_cross_is_not_plausible() {
    // One gap doubled.
    let c = cross_at(3, [(0, 1), (4, 5), (8, 9), (12, 13), (19, 20)]);
    assert!(!c.is_plausible());
}

#[test]
fn thick_lines_are_not_plausible() {
    // Span lengths exceed the gaps between them.
    let c = cross_at(0, [(0, 4), (6, 10), (12, 16), (18, 22), (24, 28)]);
    assert!(!c.is_plausible());
}

#[test]
fn malformed_cross_is_rejected() {
    let r = StaffCross::new(
        0,
        [
            Span { y_min: 5, y_max: 4 },
            Span { y_min: 6, y_max: 7 },
            Span { y_min: 8, y_max: 9 },
            Span { y_min: 10, y_max: 11 },
            Span { y_min: 12, y_max: 13 },
        ],
    );
    assert!(r.is_err());
    let overlapping = StaffCross::new(
        0,
        [
            Span { y_min: 0, y_max: 6 },
            Span { y_min: 4, y_max: 5 },
            Span { y_min: 8, y_max: 9 },
            Span { y_min: 12, y_max: 13 },
            Span { y_min: 16, y_max: 17 },
        ],
    );
    assert!(overlapping.is_err());
}

#[test]
fn centre_is_middle_span_midpoint_doubled() {
    let c = cross_at(7, [(0, 1), (4, 5), (8, 9), (12, 13), (16, 17)]);
    assert_eq!(c.centre(), (14, 17));
}

#[test]
fn scan_entire_image_finds_staff_in_every_column() {
    let img = image_with_dark_rows(20, 40, &[10, 14, 18, 22, 26]);
    let crosses = scan_entire_image(&img, 20);
    assert_eq!(crosses.len(), 20);
    for (i, c) in crosses.iter().enumerate() {
        assert_eq!(c.x, i);
        assert_eq!(c.spans()[0], Span { y_min: 10, y_max: 10 });
        assert_eq!(c.spans()[4], Span { y_min: 26, y_max: 26 });
        assert!(c.is_plausible());
    }
}

#[test]
fn scan_entire_image_strides_columns() {
    let img = image_with_dark_rows(20, 40, &[10, 14, 18, 22, 26]);
    let crosses = scan_entire_image(&img, 4);
    // Stride five: columns 0, 5, 10, 15.
    assert_eq!(crosses.len(), 4);
    assert_eq!(crosses[1].x, 5);
}

#[test]
fn binomial_matches_closed_forms() {
    assert_eq!(binomial(0, 0), 1);
    assert_eq!(binomial(5, 0), 1);
    assert_eq!(binomial(5, 1), 5);
    assert_eq!(binomial(5, 2), 10);
    assert_eq!(binomial(100, 2), 4950);
    assert_eq!(binomial(20, 2), 190);
    assert_eq!(binomial(6, 3), 20);
    assert_eq!(binomial(10, 10), 1);
}

#[test]
fn iteration_estimate_matches_closed_form() {
    // f = C(20,2)/C(100,2) = 190/4950; floor(ln(0.25)/ln(1-f)) = 35.
    let r = calculate_num_iterations(100, 20, 2, 3, 4);
    assert_eq!(r, Ok(35));
    // Deterministic: the same inputs give the same count.
    assert_eq!(calculate_num_iterations(100, 20, 2, 3, 4), Ok(35));
}

#[test]
fn iteration_estimate_degenerate_cases() {
    // Fewer assumed inliers than the sample size: nothing is findable.
    assert_eq!(calculate_num_iterations(100, 1, 2, 3, 4), Ok(0));
    // More assumed inliers than points is a caller error.
    assert!(calculate_num_iterations(10, 20, 2, 3, 4).is_err());
    // All points inliers: one certain trial suffices, the bound is 0 extra.
    assert_eq!(calculate_num_iterations(10, 10, 2, 3, 4), Ok(0));
}

fn colinear_cluster(columns: &[usize], y0: usize) -> Vec<StaffCross> {
    columns
        .iter()
        .map(|&x| {
            cross_at(
                x,
                [
                    (y0, y0 + 1),
                    (y0 + 5, y0 + 6),
                    (y0 + 10, y0 + 11),
                    (y0 + 15, y0 + 16),
                    (y0 + 20, y0 + 21),
                ],
            )
        })
        .collect()
}

#[test]
fn ransac_finds_all_colinear_points() {
    let columns: Vec<usize> = (0..10).map(|i| i * 7).collect();
    let data = colinear_cluster(&columns, 20);
    let params = RansacParams { num_iterations: 200, max_distance: FP, min_inliers: 3 };
    let mut rng = rand::rngs::StdRng::seed_from_u64(7);
    let st = ransac(&params, &data, &mut rng);
    assert!(st.model.is_some());
    assert_eq!(st.inliers.len(), data.len());
}

#[test]
fn ransac_reports_no_model_for_tiny_data() {
    let data = colinear_cluster(&[4], 20);
    let params = RansacParams { num_iterations: 50, max_distance: FP, min_inliers: 2 };
    let mut rng = rand::rngs::StdRng::seed_from_u64(7);
    let st = ransac(&params, &data, &mut rng);
    assert!(st.model.is_none());
    assert!(st.inliers.is_empty());
}

#[test]
fn ransac_multiple_separates_two_staffs() {
    let columns: Vec<usize> = (0..20).map(|i| i * 3).collect();
    let mut data = colinear_cluster(&columns, 20);
    data.extend(colinear_cluster(&columns, 220));
    let params = RansacParams { num_iterations: 0, max_distance: FP, min_inliers: 5 };
    let mut rng = rand::rngs::StdRng::seed_from_u64(11);
    let states = ransac_multiple(&params, &data, &mut rng);
    assert_eq!(states.len(), 2);
    assert_eq!(states[0].inliers.len(), 20);
    assert_eq!(states[1].inliers.len(), 20);
    // The two inlier sets are disjoint: one cluster each.
    let key = |c: &StaffCross| (c.x, c.spans[0].y_min);
    let first: Vec<_> = states[0].inliers.iter().map(key).collect();
    for p in states[1].inliers.iter() {
        assert!(!first.contains(&key(p)));
    }
}

#[test]
fn inlier_test_accepts_consistent_and_rejects_offset_points() {
    let a = cross_at(0, [(20, 21), (25, 26), (30, 31), (35, 36), (40, 41)]);
    let b = cross_at(40, [(20, 21), (25, 26), (30, 31), (35, 36), (40, 41)]);
    let model = StaffCrossLineModel::fit_inliers(&a, &b);
    let same = cross_at(20, [(20, 21), (25, 26), (30, 31), (35, 36), (40, 41)]);
    assert!(StaffCrossLineModel::is_inlier(&model, &same));
    // Far below the fitted line.
    let far = cross_at(20, [(120, 121), (125, 126), (130, 131), (135, 136), (140, 141)]);
    assert!(!StaffCrossLineModel::is_inlier(&model, &far));
    // Same line but twice the spacing.
    let wide = cross_at(20, [(10, 11), (20, 21), (30, 31), (40, 41), (50, 51)]);
    assert!(!StaffCrossLineModel::is_inlier(&model, &wide));
}

#[test]
fn find_inliers_and_outliers_partition_the_data() {
    let a = cross_at(0, [(20, 21), (25, 26), (30, 31), (35, 36), (40, 41)]);
    let b = cross_at(40, [(20, 21), (25, 26), (30, 31), (35, 36), (40, 41)]);
    let model = StaffCrossLineModel::fit_inliers(&a, &b);
    let mut data = colinear_cluster(&[0, 10, 20, 30, 40], 20);
    // The cluster above uses gap 4 spans starting at 20; reuse model anchors.
    data.push(a);
    data.push(b);
    let inl = StaffCrossLineModel::find_inliers(2 * FP, &data, &model);
    let out = StaffCrossLineModel::find_outliers(2 * FP, &data, &model);
    assert_eq!(inl.len() + out.len(), data.len());
    assert_eq!(StaffCrossLineModel::num_required(), 2);
    assert!(StaffCrossLineModel::fit_model(&data).is_none());
}

#[test]
fn line_distances_are_exact() {
    let l = Line::new(PointD { x: 0, y: 0 }, PointD { x: 10, y: 0 });
    // Normal of the horizontal line is vertical with length 10; the scaled
    // signed distance of (5, 3) is 3 * 10.
    assert_eq!(l.signed_distance_to_point(&PointD { x: 5, y: 3 }), 30);
    assert_eq!(l.distance_to_point(&PointD { x: 5, y: 3 }), 30);
    assert_eq!(l.distance_to_point(&PointD { x: 7, y: 0 }), 0);
}

#[test]
fn average_widths_are_exact_for_a_horizontal_staff() {
    // Spans one pixel thick, gaps of three pixels.
    let c = cross_at(5, [(10, 11), (15, 16), (20, 21), (25, 26), (30, 31)]);
    let line = Line::new(PointD { x: 0, y: 41 }, PointD { x: 80, y: 41 });
    // Boundary to boundary, the spaces are 3 px wide (29/2 - 23/2 in half
    // pixels) and the lines 2 px wide; the line width carries the rounding
    // of the 2^16/10 factor (6553), so it lands 12 fixed-point units short
    // of exactly 2 px.
    assert_eq!(c.average_space_width(&line), 3 * FP);
    assert_eq!(c.average_line_width(&line), 2 * FP - 12);
    let pts = c.span_points();
    assert_eq!(pts.len(), 5);
    assert_eq!(pts[0].0, PointD { x: 10, y: 19 });
    assert_eq!(pts[0].1, PointD { x: 10, y: 23 });
    assert_eq!(c.scan_direction(), PointD { x: 0, y: 1 });
}

#[test]
fn staff_line_aggregates_average_both_anchors() {
    let a = cross_at(0, [(10, 11), (15, 16), (20, 21), (25, 26), (30, 31)]);
    let b = cross_at(40, [(10, 11), (15, 16), (20, 21), (25, 26), (30, 31)]);
    let sl = StaffCrossLine::new(a, b);
    // Space widths divide exactly (factor 4096); line widths carry the
    // rounding of the 2^16/20 factor (3276).
    assert_eq!(sl.average_space_width(), 3 * FP);
    assert_eq!(sl.average_line_width(), 3200 * 3276 / 80);
    let staff = sl.to_staff().expect("non-degenerate");
    assert_eq!(staff.dir, PointFp { x: FP, y: 0 });
    assert_eq!(staff.line_width, 3200 * 3276 / 80);
    assert_eq!(staff.space_width, 3 * FP);
    assert_eq!(staff.line_sep(), 3 * FP + 3200 * 3276 / 80);
}

#[test]
fn classification_thresholds() {
    let r = |num: u32, den: u32| Ratio { num, den };
    // Blank overrides everything, even a perfect staff signature.
    assert_eq!(
        classify_staff_sample(r(0, 100), r(100, 100), r(96, 100)),
        StaffEvidenceClass::Blank
    );
    assert_eq!(
        classify_staff_sample(r(0, 100), r(100, 100), r(50, 100)),
        StaffEvidenceClass::Strong
    );
    assert_eq!(
        classify_staff_sample(r(0, 100), r(60, 100), r(50, 100)),
        StaffEvidenceClass::Partial
    );
    assert_eq!(
        classify_staff_sample(r(40, 100), r(60, 100), r(50, 100)),
        StaffEvidenceClass::Weak
    );
    assert_eq!(
        classify_staff_sample(r(60, 100), r(40, 100), r(50, 100)),
        StaffEvidenceClass::Negative
    );
    assert_eq!(
        classify_staff_sample(r(40, 100), r(40, 100), r(50, 100)),
        StaffEvidenceClass::Uncertain
    );
    // Boundary: exactly 19/20 is not blank.
    assert_eq!(
        classify_staff_sample(r(60, 100), r(40, 100), r(95, 100)),
        StaffEvidenceClass::Negative
    );
}

#[test]
fn sample_average_counts_bright_probes() {
    let img = image_with_dark_rows(40, 60, &[30]);
    let staff = Staff::new(
        PointFp { x: 0, y: 30 * FP },
        PointFp { x: 40 * FP, y: 30 * FP },
        FP,
        3 * FP,
    );
    // Five probes at offsets -8, -4, 0, 4, 8 px from row 30: only the middle
    // one is dark.
    let avg = staff_sample_average(&img, &staff, 10 * FP, 5, 4 * FP);
    assert_eq!(avg, Ratio { num: 4, den: 5 });
}

#[test]
fn partition_of_blank_image_yields_one_blank_segment() {
    let img = image_with_dark_rows(100, 50, &[]);
    let staff = Staff::new(
        PointFp { x: 0, y: 25 * FP },
        PointFp { x: 100 * FP, y: 25 * FP },
        FP,
        3 * FP,
    );
    let (staffs, blanks) = partition_staff(&img, &staff);
    assert!(staffs.is_empty());
    assert_eq!(blanks.len(), 1);
    // 49 probes at t = 2, 4, ..., 98 px; the gap spans probe indices 0..=47
    // and converts back to t in [2, 96] px.
    assert_eq!(blanks[0].pos, PointFp { x: 2 * FP, y: 25 * FP });
    assert_eq!(blanks[0].length, 94 * FP);
    assert!(staff_segment_is_valid(&img, &blanks[0]));
}

#[test]
fn partition_detects_staff_followed_by_blank() {
    // Staff pattern in columns 0..100 of a 200-wide frame, blank beyond.
    let mut data = Vec::new();
    let dark_rows = [10usize, 14, 18, 22, 26];
    for row in 0..50 {
        for col in 0..200 {
            if col < 100 && dark_rows.contains(&row) {
                data.push(dark());
            } else {
                data.push(white());
            }
        }
    }
    let img = Image::from_raw_parts(200, 50, data);
    let staff = Staff::new(
        PointFp { x: 0, y: 18 * FP },
        PointFp { x: 200 * FP, y: 18 * FP },
        FP,
        3 * FP,
    );
    let (staffs, blanks) = partition_staff(&img, &staff);
    assert_eq!(staffs.len(), 1);
    assert_eq!(blanks.len(), 1);
    // The staff stretch begins at the ruling's entry into the frame.
    assert_eq!(staffs[0].pos.y, 18 * FP);
    assert_eq!(staffs[0].pos.x, 0);
    assert!(staffs[0].length > 80 * FP);
    assert!(blanks[0].pos.x > 90 * FP);
}

#[test]
fn entry_exit_times_clip_to_frame() {
    let staff = Staff::new(
        PointFp { x: -10 * FP, y: 25 * FP },
        PointFp { x: 90 * FP, y: 25 * FP },
        FP,
        3 * FP,
    );
    let (t_min, t_max) = staff.screen_entry_exit_times(50, 50).expect("crosses frame");
    // Entry at x = 0 (t = 10 px), exit at x = 50 (t = 60 px).
    assert_eq!(t_min, 10 * FP);
    assert_eq!(t_max, 60 * FP);
    // A ruling far outside the frame misses it.
    let outside = Staff::new(
        PointFp { x: 0, y: 100 * FP },
        PointFp { x: 90 * FP, y: 100 * FP },
        FP,
        3 * FP,
    );
    assert!(outside.screen_entry_exit_times(50, 50).is_none());
}

#[test]
fn point_and_perpendicular_sampling_are_exact() {
    let staff = Staff::new(
        PointFp { x: 0, y: 10 * FP },
        PointFp { x: 100 * FP, y: 10 * FP },
        2 * FP,
        5 * FP,
    );
    assert_eq!(staff.point_at_time(30 * FP), PointFp { x: 30 * FP, y: 10 * FP });
    assert_eq!(staff.normal(), PointFp { x: 0, y: -FP });
    let probes = staff.perpendicular_samples(30 * FP, 5, 7 * FP);
    assert_eq!(probes.len(), 5);
    // Odd count: offsets are whole multiples of the separation, downward
    // along the negated normal.
    assert_eq!(probes[0], PointFp { x: 30 * FP, y: 24 * FP });
    assert_eq!(probes[2], PointFp { x: 30 * FP, y: 10 * FP });
    assert_eq!(probes[4], PointFp { x: 30 * FP, y: (10 - 14) * FP });
    assert_eq!(
        staff.signed_distance_to_point(&PointFp { x: 50 * FP, y: 13 * FP }),
        -3 * FP
    );
    assert_eq!(staff.distance_to_point(&PointFp { x: 50 * FP, y: 13 * FP }), 3 * FP);
}

#[test]
fn scan_of_empty_image_is_empty() {
    let img = Image::from_raw_parts(0, 0, Vec::new());
    assert!(scan_entire_image(&img, 8).is_empty());
    let thin = image_with_dark_rows(5, 1, &[0]);
    assert!(scan_entire_image(&thin, 5).is_empty());
}

#[test]
fn multi_model_runs_are_reproducible_from_a_seed() {
    let columns: Vec<usize> = (0..20).map(|i| i * 3).collect();
    let mut data = colinear_cluster(&columns, 20);
    data.extend(colinear_cluster(&columns, 220));
    let params = RansacParams { num_iterations: 0, max_distance: FP, min_inliers: 5 };
    let key = |c: &StaffCross| (c.x, c.spans[0].y_min);
    let mut rng1 = rand::rngs::StdRng::seed_from_u64(99);
    let run1 = ransac_multiple(&params, &data, &mut rng1);
    let mut rng2 = rand::rngs::StdRng::seed_from_u64(99);
    let run2 = ransac_multiple(&params, &data, &mut rng2);
    assert_eq!(run1.len(), run2.len());
    for (s1, s2) in run1.iter().zip(run2.iter()) {
        let k1: Vec<_> = s1.inliers.iter().map(key).collect();
        let k2: Vec<_> = s2.inliers.iter().map(key).collect();
        assert_eq!(k1, k2);
    }
}

#[test]
fn iteration_estimate_grows_with_required_confidence() {
    // Same data, 99% instead of 75% success probability:
    // floor(ln(0.01) / ln(1 - 190/4950)) = 117.
    assert_eq!(calculate_num_iterations(100, 20, 2, 99, 100), Ok(117));
}
