//! The generic random-sample-consensus engine.
//!
//! `ransac` repeatedly fits a candidate staff line from two randomly drawn
//! crossings and keeps the candidate with the most inliers, provided it
//! clears a minimum-support bar.  `ransac_multiple` peels off one model at a
//! time, removing each model's inliers from the working set until no further
//! model qualifies.  `calculate_num_iterations` is the standard closed-form
//! iteration budget: enough trials that an all-inlier sample is drawn with
//! the requested probability; it is computed exactly over unbounded
//! integers rather than through floating-point logarithms.

use vstd::prelude::*;
use vstd::arithmetic::power::pow;
use vstd::arithmetic::power::lemma_pow_adds;
use vstd::arithmetic::power::lemma_pow1;
use vstd::arithmetic::power::lemma_pow_positive;
use crate::bignat::big_ge;
use crate::bignat::BigNat;
use crate::model::spec_is_inlier;
use crate::model::StaffCrossLine;
use crate::model::StaffCrossLineModel;
use crate::scanning::StaffCross;
use crate::InvariantViolation;

verus! {

/// Binomial coefficient, by Pascal's rule.
pub open spec fn binom(n: nat, k: nat) -> nat
    decreases n, k,
{
    if k == 0 {
        1
    } else if n == 0 {
        0
    } else {
        binom((n - 1) as nat, (k - 1) as nat) + binom((n - 1) as nat, k)
    }
}

/// Choosing more elements than there are is impossible.
pub proof fn lemma_binom_zero(n: nat, k: nat)
    requires
        k > n,
    ensures
        binom(n, k) == 0,
    decreases n,
{
    if n > 0 {
        lemma_binom_zero((n - 1) as nat, (k - 1) as nat);
        lemma_binom_zero((n - 1) as nat, k);
    }
}

/// Choosing at most as many elements as there are is possible.
pub proof fn lemma_binom_pos(n: nat, k: nat)
    requires
        k <= n,
    ensures
        binom(n, k) >= 1,
    decreases n,
{
    if k > 0 {
        lemma_binom_pos((n - 1) as nat, (k - 1) as nat);
    }
}

/// One element from `n`: `n` ways.
pub proof fn lemma_binom_one(n: nat)
    ensures
        binom(n, 1) == n,
    decreases n,
{
    if n > 0 {
        lemma_binom_one((n - 1) as nat);
        assert(binom((n - 1) as nat, 0) == 1);
    }
}

/// All of `n` elements: one way.
pub proof fn lemma_binom_diag(n: nat)
    ensures
        binom(n, n) == 1,
    decreases n,
{
    if n > 0 {
        lemma_binom_diag((n - 1) as nat);
        lemma_binom_zero((n - 1) as nat, n);
    }
}

/// The multiplicative recurrence behind the product formula:
/// `k * C(n, k) == (n + 1 - k) * C(n, k - 1)`.
pub proof fn lemma_binom_mult(n: nat, k: nat)
    requires
        1 <= k <= n,
    ensures
        k * binom(n, k) == (n + 1 - k) * binom(n, (k - 1) as nat),
    decreases n,
{
    let n1 = (n - 1) as nat;
    let k1 = (k - 1) as nat;
    if k == 1 {
        lemma_binom_one(n);
        assert(binom(n, 0) == 1);
        assert(k * binom(n, k) == (n + 1 - k) * binom(n, k1)) by (nonlinear_arith)
            requires
                k == 1,
                binom(n, k) == n,
                binom(n, k1) == 1;
    } else if k == n {
        lemma_binom_zero(n1, k);
        lemma_binom_mult(n1, k1);
        lemma_binom_diag(n1);
        lemma_binom_diag(n);
        assert(binom(n, k) == binom(n1, k1) + binom(n1, k));
        assert(binom(n, k1) == binom(n1, (k1 - 1) as nat) + binom(n1, k1));
        assert(k * binom(n, k) == (n + 1 - k) * binom(n, k1)) by (nonlinear_arith)
            requires
                k == n,
                n >= 2,
                n1 == n - 1,
                binom(n, k) == 1,
                binom(n1, k1) == 1,
                k1 == k - 1,
                binom(n, k1) == binom(n1, (k1 - 1) as nat) + binom(n1, k1),
                k1 * binom(n1, k1) == (n1 + 1 - k1) * binom(n1, (k1 - 1) as nat);
    } else {
        lemma_binom_mult(n1, k);
        lemma_binom_mult(n1, k1);
        assert(binom(n, k) == binom(n1, k1) + binom(n1, k));
        assert(binom(n, k1) == binom(n1, (k1 - 1) as nat) + binom(n1, k1));
        assert(k * binom(n, k) == (n + 1 - k) * binom(n, k1)) by (nonlinear_arith)
            requires
                2 <= k < n,
                k1 == k - 1,
                n1 == n - 1,
                binom(n, k) == binom(n1, k1) + binom(n1, k),
                binom(n, k1) == binom(n1, (k1 - 1) as nat) + binom(n1, k1),
                k * binom(n1, k) == (n1 + 1 - k) * binom(n1, k1),
                k1 * binom(n1, k1) == (n1 + 1 - k1) * binom(n1, (k1 - 1) as nat);
    }
}

/// More elements to choose from, no fewer ways to choose.
pub proof fn lemma_binom_mono(n1: nat, n2: nat, k: nat)
    requires
        n1 <= n2,
    ensures
        binom(n1, k) <= binom(n2, k),
    decreases n2,
{
    if n1 < n2 {
        lemma_binom_mono(n1, (n2 - 1) as nat, k);
        assert(binom(n2, k) >= binom((n2 - 1) as nat, k));
    }
}

/// The first three binomial coefficients, in closed form.
pub proof fn lemma_binom_small(n: nat)
    ensures
        binom(n, 0) == 1,
        binom(n, 1) == n,
        binom(n, 2) == n * (n - 1) / 2,
    decreases n,
{
    lemma_binom_one(n);
    if n == 0 {
        lemma_binom_zero(0, 2);
    } else {
        lemma_binom_small((n - 1) as nat);
        assert(binom(n, 2) == binom((n - 1) as nat, 1) + binom((n - 1) as nat, 2));
        assert((n - 1) + (n - 1) * (n - 2) / 2 == n * (n - 1) / 2) by (nonlinear_arith)
            requires
                n >= 1;
    }
}

/// Binomial coefficient by the exact multiplicative product formula.
pub fn binomial(n: usize, k: usize) -> (r: usize)
    requires
        k <= n,
        forall|j: nat| j <= k ==> #[trigger] binom(n as nat, j) <= usize::MAX,
    ensures
        r == binom(n as nat, k as nat),
{
    let mut acc: u128 = 1;
    let mut i: usize = 0;
    proof {
        assert(binom(n as nat, 0) == 1);
    }
    while i < k
        invariant
            i <= k,
            k <= n,
            forall|j: nat| j <= k ==> #[trigger] binom(n as nat, j) <= usize::MAX,
            acc == binom(n as nat, i as nat),
        decreases k - i,
    {
        let step = i + 1;
        proof {
            lemma_binom_mult(n as nat, step as nat);
            assert(binom(n as nat, step as nat) <= usize::MAX);
            crate::geometry::lemma_abs_mul_le(
                acc as int,
                (n - i) as int,
                0xFFFF_FFFF_FFFF_FFFF,
                0xFFFF_FFFF_FFFF_FFFF,
            );
        }
        let next = acc * ((n - i) as u128);
        proof {
            // next == step * C(n, step), so the division below is exact.
            assert(next == (binom(n as nat, step as nat) as int) * (step as int))
                by (nonlinear_arith)
                requires
                    next == acc * ((n - i) as int),
                    acc == binom(n as nat, i as nat),
                    step == i + 1,
                    (step as int) * (binom(n as nat, step as nat) as int) == ((n - i) as int) * (
                    binom(n as nat, i as nat) as int);
            vstd::arithmetic::div_mod::lemma_fundamental_div_mod_converse(
                next as int,
                step as int,
                binom(n as nat, step as nat) as int,
                0,
            );
        }
        acc = next / (step as u128);
        i = step;
    }
    acc as usize
}

/// The exact form of the iteration bound: after `count` trials, each of
/// which picks an all-inlier sample with probability `1 - q/b`, the chance
/// that every trial missed is still at least the allowed failure chance
/// `keep/den` (where `q/b` is the miss probability of one trial and
/// `keep = den - num` encodes the requested success probability `num/den`).
pub open spec fn miss_chance_at_least(q: int, b: int, den: int, keep: int, count: nat) -> bool {
    pow(q, count) * den >= keep * pow(b, count)
}

/// Stepping a power up multiplies by the base.
proof fn lemma_pow_step(b: int, e: nat)
    ensures
        pow(b, (e + 1) as nat) == pow(b, e) * b,
{
    lemma_pow_adds(b, e, 1);
    lemma_pow1(b);
}

/// The bound is downward closed in the trial count.
pub proof fn lemma_miss_chance_down(q: int, b: int, den: int, keep: int, count: nat)
    requires
        0 <= q < b,
        1 <= keep,
        1 <= den,
        miss_chance_at_least(q, b, den, keep, (count + 1) as nat),
    ensures
        miss_chance_at_least(q, b, den, keep, count),
{
    lemma_pow_positive(b, count);
    lemma_pow_step(q, count);
    lemma_pow_step(b, count);
    if q == 0 {
        assert(pow(0, count) * 0 == 0) by (nonlinear_arith);
        assert(keep * (pow(b, count) * b) >= 1) by (nonlinear_arith)
            requires
                keep >= 1,
                pow(b, count) >= 1,
                b >= 1;
        assert(false);
    } else {
        lemma_pow_positive(q, count);
        assert(pow(q, count) * den >= keep * pow(b, count)) by (nonlinear_arith)
            requires
                (pow(q, count) * q) * den >= keep * (pow(b, count) * b),
                1 <= q < b,
                keep >= 1,
                den >= 1,
                pow(q, count) >= 1,
                pow(b, count) >= 1;
    }
}

/// The bound carries down to every smaller trial count.
pub proof fn lemma_miss_chance_mono(q: int, b: int, den: int, keep: int, lo: nat, hi: nat)
    requires
        0 <= q < b,
        1 <= keep,
        1 <= den,
        lo <= hi,
        miss_chance_at_least(q, b, den, keep, hi),
    ensures
        miss_chance_at_least(q, b, den, keep, lo),
    decreases hi,
{
    if lo < hi {
        lemma_miss_chance_down(q, b, den, keep, (hi - 1) as nat);
        lemma_miss_chance_mono(q, b, den, keep, lo, (hi - 1) as nat);
    }
}

/// The characterisation "the miss chance still exceeds the allowed failure
/// chance at `count` but not at `count + 1`" pins a single count: the
/// iteration estimate is a mathematical function of its inputs.
pub proof fn lemma_num_iterations_unique(q: int, b: int, den: int, keep: int, n1: nat, n2: nat)
    requires
        0 <= q < b,
        1 <= keep,
        1 <= den,
        miss_chance_at_least(q, b, den, keep, n1),
        !miss_chance_at_least(q, b, den, keep, (n1 + 1) as nat),
        miss_chance_at_least(q, b, den, keep, n2),
        !miss_chance_at_least(q, b, den, keep, (n2 + 1) as nat),
    ensures
        n1 == n2,
{
    if n1 < n2 {
        lemma_miss_chance_mono(q, b, den, keep, (n1 + 1) as nat, n2);
        assert(false);
    }
    if n2 < n1 {
        lemma_miss_chance_mono(q, b, den, keep, (n2 + 1) as nat, n1);
        assert(false);
    }
}

/// Growth bound used for termination of the estimator: one factor of `b`
/// outruns `q^n` by at least `(q + n) / q`.
proof fn lemma_pow_growth(q: int, b: int, n: nat)
    requires
        1 <= q,
        q < b,
    ensures
        q * pow(b, n) >= pow(q, n) * (q + n),
    decreases n,
{
    if n == 0 {
        vstd::arithmetic::power::lemma_pow0(b);
        vstd::arithmetic::power::lemma_pow0(q);
        assert(q * pow(b, n) >= pow(q, n) * (q + n)) by (nonlinear_arith)
            requires
                n == 0,
                pow(b, n) == 1,
                pow(q, n) == 1,
                q >= 1;
    } else {
        let n1 = (n - 1) as nat;
        lemma_pow_growth(q, b, n1);
        lemma_pow_positive(q, n1);
        lemma_pow_positive(b, n1);
        lemma_pow_step(q, n1);
        lemma_pow_step(b, n1);
        assert(q * (pow(b, n1) * b) >= (pow(q, n1) * q) * (q + n)) by (nonlinear_arith)
            requires
                q * pow(b, n1) >= pow(q, n1) * (q + n1),
                1 <= q < b,
                n1 == n - 1,
                n >= 1,
                pow(q, n1) >= 1,
                pow(b, n1) >= 1;
    }
}

/// While the miss chance stays above the allowed failure chance, the trial
/// count is bounded, so the estimator's search terminates.
proof fn lemma_miss_chance_count_bound(q: int, b: int, den: int, keep: int, count: nat)
    requires
        1 <= q,
        q < b,
        1 <= keep,
        1 <= den,
        miss_chance_at_least(q, b, den, keep, count),
    ensures
        count <= q * den,
{
    lemma_pow_growth(q, b, count);
    lemma_pow_positive(q, count);
    lemma_pow_positive(b, count);
    assert(count <= q * den) by (nonlinear_arith)
        requires
            pow(q, count) * den >= keep * pow(b, count),
            q * pow(b, count) >= pow(q, count) * (q + count),
            1 <= q,
            1 <= keep,
            1 <= den,
            pow(q, count) >= 1,
            pow(b, count) >= 1,
            count >= 0;
}


/// Most candidate points one multi-model run accepts; keeps the iteration
/// estimator's machine arithmetic in range (the estimate itself can grow
/// with the square of the point count).
pub const RANSAC_MAX_POINTS: usize = 46000;

/// How many random trials give probability at least
/// `success_num / success_den` that at least one trial draws an all-inlier
/// sample, when `num_inliers` of `num_points` are inliers and a sample has
/// `points_per_model` points: the largest count whose miss chance is still
/// at least the allowed failure chance `1 - success_num / success_den`.
/// More assumed inliers than points is a caller error; fewer inliers than a
/// sample needs means no model is statistically findable, so zero trials.
pub fn calculate_num_iterations(
    num_points: usize,
    num_inliers: usize,
    points_per_model: usize,
    success_num: u64,
    success_den: u64,
) -> (r: Result<usize, InvariantViolation>)
    requires
        1 <= success_den,
        success_num < success_den,
        forall|j: nat|
            j <= points_per_model ==> #[trigger] binom(num_points as nat, j) <= usize::MAX,
        binom(num_points as nat, points_per_model as nat) * success_den <= usize::MAX,
    ensures
        match r {
            Err(_) => num_inliers > num_points,
            Ok(count) => {
                let b = binom(num_points as nat, points_per_model as nat) as int;
                let a = binom(num_inliers as nat, points_per_model as nat) as int;
                let keep = success_den - success_num;
                &&& num_inliers <= num_points
                &&& (num_inliers < points_per_model ==> count == 0)
                &&& (points_per_model <= num_inliers ==> miss_chance_at_least(
                    b - a,
                    b,
                    success_den as int,
                    keep as int,
                    count as nat,
                ) && !miss_chance_at_least(
                    b - a,
                    b,
                    success_den as int,
                    keep as int,
                    (count + 1) as nat,
                ))
            },
        },
{
    if num_inliers > num_points {
        return Err(InvariantViolation);
    }
    if num_inliers < points_per_model {
        return Ok(0);
    }
    proof {
        assert forall|j: nat| j <= points_per_model implies #[trigger] binom(
            num_inliers as nat,
            j,
        ) <= usize::MAX by {
            lemma_binom_mono(num_inliers as nat, num_points as nat, j);
        }
        lemma_binom_pos(num_inliers as nat, points_per_model as nat);
        lemma_binom_mono(num_inliers as nat, num_points as nat, points_per_model as nat);
    }
    let a = binomial(num_inliers, points_per_model);
    let b = binomial(num_points, points_per_model);
    let q = (b - a) as u64;
    let b64 = b as u64;
    let keep = success_den - success_num;
    let ghost qi = q as int;
    let ghost bi = b as int;
    let ghost den_i = success_den as int;
    let ghost keep_i = keep as int;
    proof {
        vstd::arithmetic::power::lemma_pow0(qi);
        vstd::arithmetic::power::lemma_pow0(bi);
        assert(miss_chance_at_least(qi, bi, den_i, keep_i, 0));
    }
    if q == 0 {
        proof {
            lemma_pow_step(qi, 0);
            lemma_pow_step(bi, 0);
            assert(pow(qi, 1) * den_i == 0) by (nonlinear_arith)
                requires
                    pow(qi, 1) == 0;
            assert(keep_i * pow(bi, 1) >= 1) by (nonlinear_arith)
                requires
                    keep_i >= 1,
                    pow(bi, 1) >= 1;
        }
        return Ok(0);
    }
    let mut x = BigNat::from_u64(success_den);
    let mut y = BigNat::from_u64(keep);
    let mut count: usize = 0;
    proof {
        assert(qi * den_i >= 0) by (nonlinear_arith)
            requires
                qi >= 0,
                den_i >= 0;
        assert(qi * den_i < usize::MAX) by (nonlinear_arith)
            requires
                qi <= bi - 1,
                den_i >= 1,
                bi * den_i <= usize::MAX;
    }
    loop
        invariant_except_break
            x.wf(),
            y.wf(),
            1 <= q,
            q == qi,
            b64 == bi,
            qi < bi,
            1 <= keep_i,
            keep == keep_i,
            1 <= den_i,
            success_den == den_i,
            qi * den_i < usize::MAX,
            x.value() as int == pow(qi, count as nat) * den_i,
            y.value() as int == keep_i * pow(bi, count as nat),
            miss_chance_at_least(qi, bi, den_i, keep_i, count as nat),
            count as int <= qi * den_i,
        ensures
            miss_chance_at_least(qi, bi, den_i, keep_i, count as nat),
            !miss_chance_at_least(qi, bi, den_i, keep_i, (count + 1) as nat),
        decreases qi * den_i - count,
    {
        x.mul_small(q);
        y.mul_small(b64);
        proof {
            lemma_pow_step(qi, count as nat);
            lemma_pow_step(bi, count as nat);
            assert((pow(qi, count as nat) * den_i) * qi == pow(qi, (count + 1) as nat) * den_i)
                by (nonlinear_arith)
                requires
                    pow(qi, (count + 1) as nat) == pow(qi, count as nat) * qi;
            assert((keep_i * pow(bi, count as nat)) * bi == keep_i * pow(bi, (count + 1) as nat))
                by (nonlinear_arith)
                requires
                    pow(bi, (count + 1) as nat) == pow(bi, count as nat) * bi;
        }
        if big_ge(&x, &y) {
            proof {
                lemma_miss_chance_count_bound(qi, bi, den_i, keep_i, (count + 1) as nat);
            }
            count = count + 1;
        } else {
            break ;
        }
    }
    Ok(count)
}

/// Immutable per-run configuration of the engine.  `max_distance` (in
/// 2^-16-pixel fixed point) is handed to the model's classification calls;
/// the staff-line model derives its own distance threshold instead and does
/// not read it.
#[derive(Clone, Copy, Debug)]
pub struct RansacParams {
    pub num_iterations: usize,
    pub max_distance: i64,
    pub min_inliers: usize,
}

/// The outcome of one engine run: the best model found, with its supporting
/// inliers, or `model == None` when no candidate cleared the bar.
#[derive(Debug)]
pub struct RansacState {
    pub model: Option<StaffCrossLine>,
    pub inliers: Vec<StaffCross>,
}

/// One engine run: draw `num_iterations` random index pairs, fit a candidate
/// line from each pair of distinct points, and keep the candidate with the
/// most inliers, provided it has at least `min_inliers` of them (and at
/// least one).  Whatever the random draws were, a returned model is fitted
/// from two distinct data points and its inlier list is exactly the data
/// filtered by the model's inlier test.
pub fn ransac(params: &RansacParams, data: &Vec<StaffCross>, rng: &mut rand::rngs::StdRng) -> (st:
    RansacState)
    requires
        forall|i: int| 0 <= i < data@.len() ==> (#[trigger] data@[i]).wf(),
    ensures
        st.model is None ==> st.inliers@.len() == 0,
        st.model matches Some(m) ==> {
            &&& m.wf()
            &&& (exists|i: int, j: int|
                0 <= i < data@.len() && 0 <= j < data@.len() && i != j && m.a == #[trigger] data@[i]
                    && m.b == #[trigger] data@[j])
            &&& st.inliers@ == data@.filter(|p: StaffCross| spec_is_inlier(m, p))
            &&& st.inliers@.len() >= params.min_inliers
            &&& st.inliers@.len() >= 1
        },
        data@.len() < 2 ==> st.model is None,
{
    let mut best = RansacState { model: None, inliers: Vec::new() };
    if data.len() < 2 {
        return best;
    }
    let len = data.len();
    let mut it: usize = 0;
    while it < params.num_iterations
        invariant
            len == data@.len(),
            len >= 2,
            forall|i: int| 0 <= i < data@.len() ==> (#[trigger] data@[i]).wf(),
            best.model is None ==> best.inliers@.len() == 0,
            best.model matches Some(m) ==> {
                &&& m.wf()
                &&& (exists|i: int, j: int|
                    0 <= i < data@.len() && 0 <= j < data@.len() && i != j && m.a
                        == #[trigger] data@[i] && m.b == #[trigger] data@[j])
                &&& best.inliers@ == data@.filter(|p: StaffCross| spec_is_inlier(m, p))
                &&& best.inliers@.len() >= params.min_inliers
                &&& best.inliers@.len() >= 1
            },
        decreases params.num_iterations - it,
    {
        let a = crate::rng::gen_index(rng, len);
        let b = crate::rng::gen_index(rng, len);
        if a != b {
            let fit = StaffCrossLineModel::fit_inliers(&data[a], &data[b]);
            let inliers = StaffCrossLineModel::find_inliers(params.max_distance, data, &fit);
            if inliers.len() > best.inliers.len() && inliers.len() >= params.min_inliers {
                proof {
                    assert(fit.a == data@[a as int] && fit.b == data@[b as int]);
                }
                best = RansacState { model: Some(fit), inliers };
            }
        }
        it = it + 1;
    }
    best
}

/// Every element of a filtered sequence occurs in the original.
proof fn lemma_filter_elems<A>(s: Seq<A>, pred: spec_fn(A) -> bool)
    ensures
        forall|i: int|
            0 <= i < s.filter(pred).len() ==> s.contains(#[trigger] s.filter(pred)[i]),
    decreases s.len(),
{
    reveal(Seq::filter);
    if s.len() > 0 {
        lemma_filter_elems(s.drop_last(), pred);
        assert forall|i: int| 0 <= i < s.filter(pred).len() implies s.contains(
            #[trigger] s.filter(pred)[i],
        ) by {
            let f = s.filter(pred);
            let fd = s.drop_last().filter(pred);
            if i < fd.len() {
                assert(fd[i] == f[i]);
                let w = choose|w: int| 0 <= w < s.drop_last().len() && s.drop_last()[w] == fd[i];
                assert(s[w] == f[i]);
            } else {
                assert(f[i] == s.last());
                assert(s[s.len() - 1] == s.last());
            }
        }
    }
}

/// Splitting a sequence by a predicate and its negation accounts for every
/// element.
proof fn lemma_filter_complement<A>(s: Seq<A>, p1: spec_fn(A) -> bool, p2: spec_fn(A) -> bool)
    requires
        forall|x: A| #[trigger] p2(x) == !p1(x),
    ensures
        s.filter(p1).len() + s.filter(p2).len() == s.len(),
    decreases s.len(),
{
    reveal(Seq::filter);
    if s.len() > 0 {
        lemma_filter_complement(s.drop_last(), p1, p2);
        assert(p2(s.last()) == !p1(s.last()));
    }
}

/// The multi-model driver: repeatedly estimate an iteration budget for the
/// remaining points (assuming `min(remaining/2, all/20)` inliers and a 3/4
/// success chance), run the engine once, record the model found and drop its
/// inliers from the working set; stop when no model clears the bar.  Every
/// recorded state holds a model with enough support, each state's inliers
/// all pass their own model's inlier test, and no point of a later state's
/// inliers passes an earlier model's test (later states only see points the
/// earlier models rejected).
pub fn ransac_multiple(
    params: &RansacParams,
    data: &Vec<StaffCross>,
    rng: &mut rand::rngs::StdRng,
) -> (states: Vec<RansacState>)
    requires
        forall|i: int| 0 <= i < data@.len() ==> (#[trigger] data@[i]).wf(),
        data@.len() <= RANSAC_MAX_POINTS,
    ensures
        forall|i: int|
            0 <= i < states@.len() ==> ((#[trigger] states@[i]).model matches Some(m) && m.wf()
                && states@[i].inliers@.len() >= params.min_inliers && states@[i].inliers@.len() >= 1
                && (forall|k: int|
                0 <= k < states@[i].inliers@.len() ==> (#[trigger] states@[i].inliers@[k]).wf()
                    && spec_is_inlier(m, states@[i].inliers@[k]))),
        forall|i: int, j: int|
            0 <= j < i < states@.len() ==> ((#[trigger] states@[j]).model matches Some(mj)
                ==> (forall|k: int|
                0 <= k < (#[trigger] states@[i]).inliers@.len() ==> !spec_is_inlier(
                    mj,
                    states@[i].inliers@[k],
                ))),
{
    let mut states: Vec<RansacState> = Vec::new();
    let mut working: Vec<StaffCross> = Vec::new();
    let mut ci: usize = 0;
    while ci < data.len()
        invariant
            ci <= data@.len(),
            forall|i: int| 0 <= i < data@.len() ==> (#[trigger] data@[i]).wf(),
            working@ == data@.subrange(0, ci as int),
        decreases data@.len() - ci,
    {
        working.push(data[ci]);
        proof {
            assert(working@ =~= data@.subrange(0, ci + 1));
        }
        ci = ci + 1;
    }
    proof {
        assert(working@ =~= data@);
    }
    loop
        invariant
            forall|i: int| 0 <= i < working@.len() ==> (#[trigger] working@[i]).wf(),
            working@.len() <= RANSAC_MAX_POINTS,
            forall|i: int|
                0 <= i < states@.len() ==> ((#[trigger] states@[i]).model matches Some(m)
                    && m.wf() && states@[i].inliers@.len() >= params.min_inliers
                    && states@[i].inliers@.len() >= 1 && (forall|k: int|
                    0 <= k < states@[i].inliers@.len() ==> (#[trigger] states@[i].inliers@[k]).wf()
                        && spec_is_inlier(m, states@[i].inliers@[k]))),
            forall|i: int, j: int|
                0 <= j < i < states@.len() ==> ((#[trigger] states@[j]).model matches Some(mj)
                    ==> (forall|k: int|
                    0 <= k < (#[trigger] states@[i]).inliers@.len() ==> !spec_is_inlier(
                        mj,
                        states@[i].inliers@[k],
                    ))),
            forall|j: int|
                0 <= j < states@.len() ==> ((#[trigger] states@[j]).model matches Some(mj)
                    ==> (forall|k: int|
                    0 <= k < working@.len() ==> !spec_is_inlier(mj, #[trigger] working@[k]))),
        decreases working@.len(),
    {
        let assumed_inliers = if working.len() / 2 < data.len() / 20 {
            working.len() / 2
        } else {
            data.len() / 20
        };
        proof {
            lemma_binom_small(working@.len() as nat);
            assert(binom(working@.len() as nat, 0) <= usize::MAX);
            assert(binom(working@.len() as nat, 1) <= usize::MAX);
            let wl = working@.len() as int;
            assert(wl * (wl - 1) / 2 * 4 <= usize::MAX && wl * (wl - 1) / 2 <= usize::MAX) by {
                assert(wl * (wl - 1) <= 46000 * 45999) by (nonlinear_arith)
                    requires
                        0 <= wl <= 46000;
                vstd::arithmetic::div_mod::lemma_div_is_ordered(
                    wl * (wl - 1),
                    46000int * 45999,
                    2,
                );
            }
            assert forall|j: nat| j <= 2 implies #[trigger] binom(working@.len() as nat, j)
                <= usize::MAX by {
                assert(j == 0 || j == 1 || j == 2);
            }
        }
        let budget = calculate_num_iterations(working.len(), assumed_inliers, 2, 3, 4);
        let num_iterations = match budget {
            Ok(n) => n,
            Err(_) => {
                proof {
                    assert(false);
                }
                0
            },
        };
        let run_params = RansacParams {
            num_iterations,
            max_distance: params.max_distance,
            min_inliers: params.min_inliers,
        };
        let st = ransac(&run_params, &working, rng);
        let found = match &st.model {
            Some(model) => Some(*model),
            None => None,
        };
        match found {
            None => {
                break ;
            },
            Some(model) => {
                let ghost old_working = working@;
                let ghost old_states = states@;
                let next_working = StaffCrossLineModel::find_outliers(
                    params.max_distance,
                    &working,
                    &model,
                );
                proof {
                    let p_in = |p: StaffCross| spec_is_inlier(model, p);
                    let p_out = |p: StaffCross| !spec_is_inlier(model, p);
                    lemma_filter_complement(old_working, p_in, p_out);
                    old_working.filter_lemma(p_in);
                    old_working.filter_lemma(p_out);
                    lemma_filter_elems(old_working, p_in);
                    lemma_filter_elems(old_working, p_out);
                }
                working = next_working;
                states.push(st);
                proof {
                    let p_in = |p: StaffCross| spec_is_inlier(model, p);
                    let p_out = |p: StaffCross| !spec_is_inlier(model, p);
                    let last = states@.len() - 1;
                    assert(states@[last] == st);
                    assert(st.inliers@ == old_working.filter(p_in));
                    // Each recorded inlier is a well-formed point of the old
                    // working set, hence no inlier of any earlier model.
                    assert forall|k: int| 0 <= k < st.inliers@.len() implies (
                        #[trigger] st.inliers@[k]).wf() && spec_is_inlier(
                        model,
                        st.inliers@[k],
                    ) && (forall|j: int|
                        0 <= j < last ==> ((#[trigger] states@[j]).model matches Some(mj)
                            ==> !spec_is_inlier(mj, st.inliers@[k]))) by {
                        assert(p_in(st.inliers@[k]));
                        assert(old_working.contains(st.inliers@[k]));
                        let w = choose|w: int|
                            0 <= w < old_working.len() && old_working[w] == st.inliers@[k];
                        assert(old_working[w].wf());
                        assert forall|j: int| 0 <= j < last implies ((#[trigger] states@[j]).model matches Some(
                            mj,
                        ) ==> !spec_is_inlier(mj, st.inliers@[k])) by {
                            assert(states@[j] == old_states[j]);
                        }
                    }
                    // The shrunk working set keeps only points no recorded
                    // model accepts.
                    assert forall|k: int| 0 <= k < working@.len() implies (
                        #[trigger] working@[k]).wf() && (forall|j: int|
                        0 <= j < states@.len() ==> ((#[trigger] states@[j]).model matches Some(mj)
                            ==> !spec_is_inlier(mj, working@[k]))) by {
                        assert(p_out(working@[k]));
                        assert(old_working.contains(working@[k]));
                        let w = choose|w: int|
                            0 <= w < old_working.len() && old_working[w] == working@[k];
                        assert(old_working[w].wf());
                        assert forall|j: int| 0 <= j < states@.len() implies (
                            (#[trigger] states@[j]).model matches Some(mj) ==> !spec_is_inlier(
                                mj,
                                working@[k],
                            )) by {
                            if j < last {
                                assert(states@[j] == old_states[j]);
                            } else {
                                assert(states@[j] == st);
                            }
                        }
                    }
                    // The working set shrank by the model's inliers, of which
                    // there is at least one.
                    assert(old_working.filter(p_in).len() + old_working.filter(p_out).len()
                        == old_working.len());
                }
            },
        }
    }
    states
}

/// Successive models of the multi-model driver claim disjoint point sets: a
/// point among one state's inliers never appears among a later state's
/// inliers, because later states are drawn from points the earlier model
/// rejected.
pub proof fn lemma_multi_model_disjoint(
    states: Seq<RansacState>,
    i: int,
    j: int,
    p: StaffCross,
)
    requires
        forall|k: int|
            0 <= k < states.len() ==> ((#[trigger] states[k]).model matches Some(m) && (
            forall|t: int|
                0 <= t < states[k].inliers@.len() ==> spec_is_inlier(
                    m,
                    #[trigger] states[k].inliers@[t],
                ))),
        forall|a: int, b: int|
            0 <= b < a < states.len() ==> ((#[trigger] states[b]).model matches Some(mb)
                ==> (forall|t: int|
                0 <= t < (#[trigger] states[a]).inliers@.len() ==> !spec_is_inlier(
                    mb,
                    states[a].inliers@[t],
                ))),
        0 <= j < i < states.len(),
        states[i].inliers@.contains(p),
    ensures
        !states[j].inliers@.contains(p),
{
    let mj = states[j].model->Some_0;
    let t = choose|t: int| 0 <= t < states[i].inliers@.len() && states[i].inliers@[t] == p;
    assert(!spec_is_inlier(mj, states[i].inliers@[t]));
    if states[j].inliers@.contains(p) {
        let u = choose|u: int| 0 <= u < states[j].inliers@.len() && states[j].inliers@[u] == p;
        assert(spec_is_inlier(mj, states[j].inliers@[u]));
        assert(false);
    }
}

} // verus!
