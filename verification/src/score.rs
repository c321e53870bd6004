//! The normalized score of a placement, in millionths.
//!
//! The score is the cross-correlation divided by the square root of the
//! product of the two sums of squares, a real number between -1 and 1. It is
//! reported as the least whole number of millionths that is not below it, so
//! that `reported > threshold` holds exactly when the score itself exceeds a
//! threshold given in millionths.

use crate::wide::{wide_product, Wide};
use vstd::prelude::*;

verus! {

/// One, in the unit in which scores are reported.
pub const PPM: i32 = 1_000_000;

/// The largest sum of squares of a normalized image: 2^28 pixels, each with
/// a deviation of 255 * 2^28.
pub const MAX_ENERGY: u128 = 1_257_766_422_727_060_193_364_305_510_400;

/// Whether `cross / sqrt(energy)` is at most `q` millionths, for a positive
/// `energy`. Both sides are compared by their squares, with their signs.
pub open spec fn score_at_most(cross: int, energy: int, q: int) -> bool {
    if cross >= 0 {
        q >= 0 && (PPM * cross) * (PPM * cross) <= (q * q) * energy
    } else {
        q >= 0 || (PPM * cross) * (PPM * cross) >= (q * q) * energy
    }
}

/// Whether `q` is the score in millionths, rounded up: the least `q` with
/// `cross / sqrt(energy) <= q / 1_000_000`. Where `energy` is zero the score
/// is undefined and `q` is zero.
pub open spec fn is_score(cross: int, energy: int, q: int) -> bool {
    if energy == 0 {
        q == 0
    } else {
        score_at_most(cross, energy, q) && !score_at_most(cross, energy, q - 1)
    }
}

/// The score in millionths, rounded up; zero where `energy` is zero.
pub open spec fn score_ppm(cross: int, energy: int) -> int {
    choose|q: int| is_score(cross, energy, q)
}

/// `k * k * energy`: the square of `k` millionths of the root of `energy`,
/// in the unit of the squared cross-correlation times 10^12.
pub open spec fn level(k: int, energy: int) -> int {
    (k * k) * energy
}

proof fn lemma_level_monotone(j: int, k: int, energy: int)
    requires
        0 <= j <= k,
        energy >= 0,
    ensures
        level(j, energy) <= level(k, energy),
{
    assert(j * j <= k * k) by (nonlinear_arith)
        requires
            0 <= j <= k,
    ;
    assert((j * j) * energy <= (k * k) * energy) by (nonlinear_arith)
        requires
            j * j <= k * k,
            energy >= 0,
    ;
}

proof fn lemma_level_negated(k: int, energy: int)
    ensures
        level(-k, energy) == level(k, energy),
{
    assert((-k) * (-k) == k * k) by (nonlinear_arith);
}

/// A score that is at most `j` millionths is at most `k` millionths for
/// every `k` from `j` up.
pub proof fn lemma_score_at_most_monotone(cross: int, energy: int, j: int, k: int)
    requires
        energy >= 0,
        j <= k,
        score_at_most(cross, energy, j),
    ensures
        score_at_most(cross, energy, k),
{
    if cross >= 0 {
        lemma_level_monotone(j, k, energy);
    } else if k < 0 {
        lemma_level_monotone(-k, -j, energy);
        lemma_level_negated(k, energy);
        lemma_level_negated(j, energy);
    }
}

/// There is at most one score for a placement.
pub proof fn lemma_score_unique(cross: int, energy: int, q1: int, q2: int)
    requires
        energy >= 0,
        is_score(cross, energy, q1),
        is_score(cross, energy, q2),
    ensures
        q1 == q2,
{
    if energy != 0 {
        if q1 < q2 {
            lemma_score_at_most_monotone(cross, energy, q1, q2 - 1);
        }
        if q2 < q1 {
            lemma_score_at_most_monotone(cross, energy, q2, q1 - 1);
        }
    }
}

/// Where the square of the cross-correlation is at most `energy`, the score
/// lies between minus one and one.
pub proof fn lemma_score_range(cross: int, energy: int, q: int)
    requires
        energy >= 0,
        cross * cross <= energy,
        is_score(cross, energy, q),
    ensures
        -PPM <= q <= PPM,
{
    if energy != 0 {
        lemma_scaled_square(cross, energy);
        if cross >= 0 {
            if q > PPM {
                assert(score_at_most(cross, energy, PPM as int));
                lemma_score_at_most_monotone(cross, energy, PPM as int, q - 1);
            }
            assert(q >= 0);
        } else {
            assert(q <= 0);
            if q < -PPM {
                lemma_level_monotone(PPM as int, -q, energy);
                lemma_level_negated(q, energy);
                assert(level(PPM as int, energy) < level(PPM + 1, energy)) by (nonlinear_arith)
                    requires
                        energy > 0,
                ;
                lemma_level_monotone(PPM + 1, -q, energy);
                assert(false);
            }
        }
    }
}

proof fn lemma_scaled_square(cross: int, energy: int)
    requires
        cross * cross <= energy,
    ensures
        (PPM * cross) * (PPM * cross) <= level(PPM as int, energy),
{
    assert((PPM * cross) * (PPM * cross) == (PPM * PPM) * (cross * cross)) by (nonlinear_arith);
    assert((PPM * PPM) * (cross * cross) <= (PPM * PPM) * energy) by (nonlinear_arith)
        requires
            cross * cross <= energy,
    ;
}

proof fn lemma_magnitude(cross: int, a: int, b: int)
    requires
        0 <= a <= MAX_ENERGY,
        0 <= b <= MAX_ENERGY,
        cross * cross <= a * b,
    ensures
        -MAX_ENERGY <= cross <= MAX_ENERGY,
{
    assert(a * b <= MAX_ENERGY * MAX_ENERGY) by (nonlinear_arith)
        requires
            0 <= a <= MAX_ENERGY,
            0 <= b <= MAX_ENERGY,
    ;
    assert(-MAX_ENERGY <= cross <= MAX_ENERGY) by (nonlinear_arith)
        requires
            cross * cross <= MAX_ENERGY * MAX_ENERGY,
            MAX_ENERGY >= 0,
    ;
}

/// `k * a` times `k * b`, exactly: the level of `k` for the energy `a * b`.
fn level_of(k: u32, a: u128, b: u128) -> (w: Wide)
    requires
        k <= PPM + 1,
        a <= MAX_ENERGY,
        b <= MAX_ENERGY,
    ensures
        w.value() == level(k as int, a * b),
{
    assert(k * a <= (PPM + 1) * MAX_ENERGY) by (nonlinear_arith)
        requires
            0 <= k <= PPM + 1,
            0 <= a <= MAX_ENERGY,
    ;
    assert(k * b <= (PPM + 1) * MAX_ENERGY) by (nonlinear_arith)
        requires
            0 <= k <= PPM + 1,
            0 <= b <= MAX_ENERGY,
    ;
    let ka: u128 = k as u128 * a;
    let kb: u128 = k as u128 * b;
    assert((k * a) * (k * b) == (k * k) * (a * b)) by (nonlinear_arith);
    wide_product(ka, kb)
}

/// The score of a placement in millionths, rounded up, from its
/// cross-correlation and the two sums of squares. Where either sum of
/// squares is zero the score is undefined, and zero is returned.
pub fn correlation_ppm(cross: i128, source_squares: u128, template_squares: u128) -> (q: i32)
    requires
        source_squares <= MAX_ENERGY,
        template_squares <= MAX_ENERGY,
        cross * cross <= source_squares * template_squares,
    ensures
        is_score(cross as int, source_squares * template_squares, q as int),
        q == score_ppm(cross as int, source_squares * template_squares),
        -PPM <= q <= PPM,
{
    let ghost energy: int = source_squares * template_squares;
    proof {
        lemma_magnitude(cross as int, source_squares as int, template_squares as int);
        assert(energy >= 0) by (nonlinear_arith)
            requires
                energy == source_squares * template_squares,
                source_squares >= 0,
                template_squares >= 0,
        ;
        lemma_scaled_square(cross as int, energy);
    }
    let q: i32 = if source_squares == 0 || template_squares == 0 {
        assert(energy == 0) by (nonlinear_arith)
            requires
                energy == source_squares * template_squares,
                source_squares == 0 || template_squares == 0,
        ;
        0
    } else {
        assert(energy > 0) by (nonlinear_arith)
            requires
                energy == source_squares * template_squares,
                source_squares > 0,
                template_squares > 0,
        ;
        if cross >= 0 {
            let scaled: u128 = cross as u128 * 1_000_000u128;
            let target = wide_product(scaled, scaled);
            let mut lo: u32 = 0;
            let mut hi: u32 = 1_000_000;
            while lo < hi
                invariant
                    source_squares <= MAX_ENERGY,
                    template_squares <= MAX_ENERGY,
                    energy == source_squares * template_squares,
                    energy > 0,
                    lo <= hi <= PPM,
                    target.value() == (PPM * cross) * (PPM * cross),
                    target.value() <= level(hi as int, energy),
                    lo == 0 || level(lo - 1, energy) < target.value(),
                decreases hi - lo,
            {
                let mid: u32 = lo + (hi - lo) / 2;
                let at_mid = level_of(mid, source_squares, template_squares);
                if target.at_most(&at_mid) {
                    hi = mid;
                } else {
                    lo = mid + 1;
                }
            }
            hi as i32
        } else {
            let scaled: u128 = (-cross) as u128 * 1_000_000u128;
            let target = wide_product(scaled, scaled);
            let mut lo: u32 = 0;
            let mut hi: u32 = 1_000_001;
            proof {
                assert((PPM * (-cross)) * (PPM * (-cross)) == (PPM * cross) * (PPM * cross))
                    by (nonlinear_arith);
                assert(level(PPM as int, energy) < level(PPM + 1, energy)) by (nonlinear_arith)
                    requires
                        energy > 0,
                ;
                assert(level(0, energy) == 0) by (nonlinear_arith);
                assert((PPM * cross) * (PPM * cross) >= 0) by (nonlinear_arith);
            }
            while hi - lo > 1
                invariant
                    source_squares <= MAX_ENERGY,
                    template_squares <= MAX_ENERGY,
                    energy == source_squares * template_squares,
                    energy > 0,
                    lo < hi <= PPM + 1,
                    target.value() == (PPM * cross) * (PPM * cross),
                    level(lo as int, energy) <= target.value(),
                    target.value() < level(hi as int, energy),
                decreases hi - lo,
            {
                let mid: u32 = lo + (hi - lo) / 2;
                let at_mid = level_of(mid, source_squares, template_squares);
                if at_mid.at_most(&target) {
                    lo = mid;
                } else {
                    hi = mid;
                }
            }
            proof {
                lemma_level_negated(lo as int, energy);
                lemma_level_negated(lo + 1, energy);
            }
            -(lo as i32)
        }
    };
    proof {
        let best = score_ppm(cross as int, energy);
        assert(is_score(cross as int, energy, q as int));
        lemma_score_unique(cross as int, energy, q as int, best);
        lemma_score_range(cross as int, energy, q as int);
    }
    q
}

proof fn lemma_least_bound(cross: int, energy: int, lo: int, hi: int)
    requires
        energy != 0,
        lo < hi,
        !score_at_most(cross, energy, lo),
        score_at_most(cross, energy, hi),
    ensures
        exists|q: int| #[trigger] is_score(cross, energy, q),
    decreases hi - lo,
{
    if score_at_most(cross, energy, hi - 1) {
        lemma_least_bound(cross, energy, lo, hi - 1);
    } else {
        assert(is_score(cross, energy, hi));
    }
}

/// Where the square of the cross-correlation is at most `energy`, the
/// placement has a score, and it lies between minus one and one.
pub proof fn lemma_score_exists(cross: int, energy: int)
    requires
        energy >= 0,
        cross * cross <= energy,
    ensures
        is_score(cross, energy, score_ppm(cross, energy)),
        -PPM <= score_ppm(cross, energy) <= PPM,
{
    if energy == 0 {
        assert(is_score(cross, energy, 0));
    } else {
        lemma_scaled_square(cross, energy);
        assert(score_at_most(cross, energy, PPM as int));
        assert(!score_at_most(cross, energy, -PPM - 1)) by {
            lemma_level_negated(-PPM - 1, energy);
            assert(level(PPM as int, energy) < level(PPM + 1, energy)) by (nonlinear_arith)
                requires
                    energy > 0,
            ;
        }
        lemma_least_bound(cross, energy, -PPM - 1, PPM as int);
    }
    lemma_score_range(cross, energy, score_ppm(cross, energy));
}

/// Where the cross-correlation equals both sums of squares, and these are
/// not zero, the score is exactly one.
pub proof fn lemma_score_of_equal(energy: int)
    requires
        energy > 0,
    ensures
        score_ppm(energy, energy * energy) == PPM,
{
    let squared = energy * energy;
    assert(squared > 0) by (nonlinear_arith)
        requires
            energy > 0,
            squared == energy * energy,
    ;
    assert((PPM * energy) * (PPM * energy) == (PPM * PPM) * squared) by (nonlinear_arith)
        requires
            squared == energy * energy,
    ;
    assert((PPM - 1) * (PPM - 1) * squared < (PPM * PPM) * squared) by (nonlinear_arith)
        requires
            squared > 0,
    ;
    assert(is_score(energy, squared, PPM as int));
    lemma_score_exists(energy, squared);
    lemma_score_unique(energy, squared, PPM as int, score_ppm(energy, squared));
}

/// Comparing the reported score with a threshold in millionths decides
/// whether the score itself exceeds the threshold: rounding up loses
/// nothing.
pub proof fn lemma_threshold_exact(cross: int, energy: int, q: int, threshold: int)
    requires
        energy > 0,
        is_score(cross, energy, q),
    ensures
        q > threshold <==> !score_at_most(cross, energy, threshold),
{
    if q > threshold {
        if score_at_most(cross, energy, threshold) {
            lemma_score_at_most_monotone(cross, energy, threshold, q - 1);
        }
    } else {
        lemma_score_at_most_monotone(cross, energy, q, threshold);
    }
}

} // verus!
