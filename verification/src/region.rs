//! A template that was cut out of the source: when it is found where it was
//! taken.
//!
//! The cross-correlation of a window with the template is, up to a factor
//! that is the same for every window, the sum of products of the window's
//! own deviations with the template's. By the Cauchy-Schwarz inequality no
//! window that varies no more than the template reaches a greater sum than
//! the template's own region does.

use crate::correlate::{
    cross,
    is_best_offset,
    lemma_cauchy_schwarz,
    lemma_square_sum_nonnegative,
    lemma_template_cell,
    lemma_window_cell,
    precedes,
    valid_offset,
    window,
};
use crate::cv::{
    expected_match,
    is_reduced,
    lemma_best_placement_is_reported,
    match_error,
    score_at,
    MatchError,
    MatchResult,
};
use crate::luma::LumaView;
use crate::normalize::{
    deviations,
    dot,
    lemma_normalized_wf,
    lemma_zero_square_sum,
    normalized,
    pixel_sum,
    square_sum,
};
use crate::structs::Point;
use vstd::prelude::*;

verus! {

/// The sum of all entries.
pub open spec fn total(values: Seq<int>) -> int
    decreases values.len(),
{
    if values.len() == 0 {
        0
    } else {
        total(values.drop_last()) + values.last()
    }
}

/// Every entry multiplied by `factor`, with `shift` added.
pub open spec fn affine(values: Seq<int>, factor: int, shift: int) -> Seq<int> {
    Seq::new(values.len(), |i: int| factor * values[i] + shift)
}

/// The entries of `a` less those of `b`.
pub open spec fn difference(a: Seq<int>, b: Seq<int>) -> Seq<int> {
    Seq::new(a.len(), |i: int| a[i] - b[i])
}

/// Pixels as numbers.
pub open spec fn levels(pixels: Seq<u8>) -> Seq<int> {
    Seq::new(pixels.len(), |i: int| pixels[i] as int)
}

/// The pixels of the source under the template laid at offset `(x, y)`, in
/// the template's order.
pub open spec fn window_pixels(source: LumaView, template: LumaView, x: int, y: int) -> Seq<u8> {
    Seq::new(
        template.pixels.len(),
        |j: int|
            source.pixels[(y + j / (template.width as int)) * source.width + x + j % (
            template.width as int)],
    )
}

/// Whether the template is, pixel by pixel, the region of the source at
/// offset `(x, y)`.
pub open spec fn is_copy_of_region(source: LumaView, template: LumaView, x: int, y: int) -> bool {
    template.pixels == window_pixels(source, template, x, y)
}

/// How much the window at offset `(x, y)` varies: the sum of the squares of
/// its pixels' deviations from their own mean, each times the number of
/// pixels.
pub open spec fn window_squares(source: LumaView, template: LumaView, x: int, y: int) -> int {
    square_sum(deviations(window_pixels(source, template, x, y)))
}

proof fn lemma_total_of_levels(pixels: Seq<u8>)
    ensures
        total(levels(pixels)) == pixel_sum(pixels),
    decreases pixels.len(),
{
    if pixels.len() > 0 {
        lemma_total_of_levels(pixels.drop_last());
        assert(levels(pixels).drop_last() =~= levels(pixels.drop_last()));
    }
}

proof fn lemma_total_affine(values: Seq<int>, factor: int, shift: int)
    ensures
        total(affine(values, factor, shift)) == factor * total(values) + values.len() * shift,
    decreases values.len(),
{
    if values.len() > 0 {
        let rest = values.drop_last();
        lemma_total_affine(rest, factor, shift);
        assert(affine(values, factor, shift).drop_last() =~= affine(rest, factor, shift));
        assert(factor * (total(rest) + values.last()) == factor * total(rest) + factor
            * values.last()) by (nonlinear_arith);
        assert(values.len() * shift == rest.len() * shift + shift) by (nonlinear_arith)
            requires
                values.len() == rest.len() + 1,
        ;
    } else {
        assert(factor * 0 == 0) by (nonlinear_arith);
        assert(0 * shift == 0) by (nonlinear_arith);
    }
}

/// The deviations of the pixels from their mean sum to zero.
pub proof fn lemma_deviations_sum_to_zero(pixels: Seq<u8>)
    ensures
        total(deviations(pixels)) == 0,
{
    let n = pixels.len() as int;
    lemma_total_of_levels(pixels);
    lemma_total_affine(levels(pixels), n, -pixel_sum(pixels));
    assert(deviations(pixels) =~= affine(levels(pixels), n, -pixel_sum(pixels)));
    assert(n * pixel_sum(pixels) + n * (-pixel_sum(pixels)) == 0) by (nonlinear_arith);
}

proof fn lemma_dot_affine(a: Seq<int>, factor: int, shift: int, b: Seq<int>)
    requires
        a.len() == b.len(),
    ensures
        dot(affine(a, factor, shift), b) == factor * dot(a, b) + shift * total(b),
    decreases a.len(),
{
    if a.len() > 0 {
        let a0 = a.drop_last();
        let b0 = b.drop_last();
        lemma_dot_affine(a0, factor, shift, b0);
        assert(affine(a, factor, shift).drop_last() =~= affine(a0, factor, shift));
        let x = a.last();
        let y = b.last();
        assert((factor * x + shift) * y == factor * (x * y) + shift * y) by (nonlinear_arith);
        assert(factor * (dot(a0, b0) + x * y) == factor * dot(a0, b0) + factor * (x * y))
            by (nonlinear_arith);
        assert(shift * (total(b0) + y) == shift * total(b0) + shift * y) by (nonlinear_arith);
    } else {
        assert(factor * 0 == 0) by (nonlinear_arith);
        assert(shift * 0 == 0) by (nonlinear_arith);
    }
}

proof fn lemma_square_sum_of_difference(a: Seq<int>, b: Seq<int>)
    requires
        a.len() == b.len(),
    ensures
        square_sum(difference(a, b)) == square_sum(a) - 2 * dot(a, b) + square_sum(b),
    decreases a.len(),
{
    if a.len() > 0 {
        let a0 = a.drop_last();
        let b0 = b.drop_last();
        lemma_square_sum_of_difference(a0, b0);
        assert(difference(a, b).drop_last() =~= difference(a0, b0));
        let x = a.last();
        let y = b.last();
        assert((x - y) * (x - y) == x * x - 2 * (x * y) + y * y) by (nonlinear_arith);
    }
}

/// The cross-correlation of a window with the template, times the number of
/// pixels of the template, is the sum of products of the window's own
/// deviations with the template's, times the number of pixels of the source.
pub proof fn lemma_cross_by_own_deviations(source: LumaView, template: LumaView, x: int, y: int)
    requires
        source.wf(),
        template.wf(),
        0 < template.width <= source.width,
        0 < template.height <= source.height,
        valid_offset(normalized(source), normalized(template), x, y),
    ensures
        template.pixels.len() * cross(normalized(source), normalized(template), x, y)
            == source.pixels.len() * dot(
            deviations(window_pixels(source, template, x, y)),
            deviations(template.pixels),
        ),
{
    let s = normalized(source);
    let t = normalized(template);
    lemma_normalized_wf(source);
    lemma_normalized_wf(template);
    let pixels = window_pixels(source, template, x, y);
    let plain = levels(pixels);
    let n_s = source.pixels.len() as int;
    let n_t = template.pixels.len() as int;
    let d_t = deviations(template.pixels);
    assert(window(s, t, x, y) =~= affine(plain, n_s, -pixel_sum(source.pixels))) by {
        assert forall|j: int| 0 <= j < n_t implies window(s, t, x, y)[j] == n_s * plain[j]
            - pixel_sum(source.pixels) by {
            lemma_template_cell(t, j);
            lemma_window_cell(s, t, x, y, j % (t.width as int), j / (t.width as int));
        }
    }
    assert(deviations(pixels) =~= affine(plain, n_t, -pixel_sum(pixels)));
    lemma_deviations_sum_to_zero(template.pixels);
    lemma_dot_affine(plain, n_s, -pixel_sum(source.pixels), d_t);
    lemma_dot_affine(plain, n_t, -pixel_sum(pixels), d_t);
    let core = dot(plain, d_t);
    assert((-pixel_sum(source.pixels)) * 0 == 0) by (nonlinear_arith);
    assert((-pixel_sum(pixels)) * 0 == 0) by (nonlinear_arith);
    assert(n_t * (n_s * core) == n_s * (n_t * core)) by (nonlinear_arith);
}

/// A template that was cut out of the source is found where it was taken,
/// provided that no window of the source varies more than the template
/// does, and that no window before the region, in scan order, has the
/// template's deviations: the match is the centre of the region.
pub proof fn lemma_copied_region_is_found(
    source: LumaView,
    template: LumaView,
    threshold: nat,
    x: int,
    y: int,
)
    requires
        source.wf(),
        template.wf(),
        match_error(source, template, threshold) is None,
        !is_reduced(source, threshold),
        valid_offset(normalized(source), normalized(template), x, y),
        is_copy_of_region(source, template, x, y),
        forall|x2: int, y2: int|
            valid_offset(normalized(source), normalized(template), x2, y2)
                ==> #[trigger] window_squares(source, template, x2, y2) <= square_sum(
                deviations(template.pixels),
            ),
        forall|x2: int, y2: int|
            valid_offset(normalized(source), normalized(template), x2, y2) && precedes(
                x2,
                y2,
                x,
                y,
            ) ==> deviations(#[trigger] window_pixels(source, template, x2, y2)) != deviations(
                template.pixels,
            ),
    ensures
        is_best_offset(normalized(source), normalized(template), x, y),
        expected_match(source, template, threshold) == Ok::<MatchResult, MatchError>(
            MatchResult {
                pos: Point {
                    x: (x + template.width / 2) as u32,
                    y: (y + template.height / 2) as u32,
                },
                correlation: score_at(normalized(source), normalized(template), x, y) as i32,
            },
        ),
{
    let s = normalized(source);
    let t = normalized(template);
    let n_s = source.pixels.len() as int;
    let n_t = template.pixels.len() as int;
    let d_t = deviations(template.pixels);
    let own = square_sum(d_t);
    lemma_square_sum_nonnegative(d_t);
    assert(n_t > 0 && n_s > 0) by (nonlinear_arith)
        requires
            n_t == template.width * template.height,
            n_s == source.width * source.height,
            0 < template.width <= source.width,
            0 < template.height <= source.height,
    ;
    lemma_cross_by_own_deviations(source, template, x, y);
    let here = cross(s, t, x, y);
    assert(n_t * here == n_s * own);
    assert forall|x2: int, y2: int| valid_offset(s, t, x2, y2) implies #[trigger] cross(
        s,
        t,
        x2,
        y2,
    ) <= here && (precedes(x2, y2, x, y) ==> cross(s, t, x2, y2) < here) by {
        let d_w = deviations(window_pixels(source, template, x2, y2));
        let there = cross(s, t, x2, y2);
        let shared = dot(d_w, d_t);
        let varies = square_sum(d_w);
        lemma_cross_by_own_deviations(source, template, x2, y2);
        lemma_cauchy_schwarz(d_w, d_t);
        lemma_square_sum_nonnegative(d_w);
        assert(varies == window_squares(source, template, x2, y2));
        assert(shared <= own) by (nonlinear_arith)
            requires
                shared * shared <= varies * own,
                0 <= varies <= own,
        ;
        assert(there <= here) by (nonlinear_arith)
            requires
                n_t * there == n_s * shared,
                n_t * here == n_s * own,
                shared <= own,
                n_t > 0,
                n_s > 0,
        ;
        if precedes(x2, y2, x, y) && there == here {
            assert(shared == own) by (nonlinear_arith)
                requires
                    n_t * there == n_s * shared,
                    n_t * here == n_s * own,
                    there == here,
                    n_s > 0,
            ;
            lemma_square_sum_of_difference(d_w, d_t);
            let apart = difference(d_w, d_t);
            lemma_zero_square_sum(apart);
            assert(d_w =~= d_t) by {
                assert forall|i: int| 0 <= i < d_w.len() implies d_w[i] == d_t[i] by {
                    assert(apart[i] == 0);
                }
            }
            assert(false);
        }
    }
    lemma_best_placement_is_reported(source, template, threshold, x, y);
}

} // verus!
