//! The template-matching engine: where in a source image a template matches
//! best, and how well.
//!
//! A source whose longer side exceeds the size threshold is first reduced so
//! that this side equals the threshold; the template is reduced by the same
//! factor. Both are then normalized: the mean luminance is subtracted from
//! every pixel. The template is laid over every offset of the source, and the
//! products of the deviations that lie over each other are summed. That sum,
//! divided by the square root of the product of the two sums of squared
//! deviations, each taken over its whole image, is the score of the offset: a
//! number between minus one and one. The first offset with the greatest score
//! wins, rows scanned from the top and each row from the left. Its position
//! is mapped back to the source and reported as the centre of the template
//! there.
//!
//! An image of one constant luminance has no deviations and no defined
//! score: the score reported is zero, and the offset is the first one.

use crate::correlate::{
    best_match,
    best_offset,
    cross,
    fits,
    is_best_offset,
    lemma_best_offset_unique,
    lemma_cross_bounded,
    valid_offset,
    window,
    Placement,
};
use crate::luma::{
    frame_height,
    frame_view,
    frame_width,
    nearest_resized,
    LumaImage,
    LumaView,
    MAX_PIXELS,
};
use crate::normalize::{
    normalize_pixels,
    normalized,
    square_sum,
    NormalizedImage,
    NormalizedView,
    MAX_SQUARE,
};
use crate::score::{correlation_ppm, is_score, lemma_score_unique, score_ppm, MAX_ENERGY, PPM};
use crate::structs::Point;
use image::DynamicImage;
use vstd::prelude::*;

verus! {

/// The outcome of a match.
#[derive(Clone, Copy, Debug, PartialEq, Eq, Structural)]
pub struct MatchResult {
    /// The centre of the template where it matches best, in source
    /// coordinates.
    pub pos: Point,
    /// The normalized cross-correlation there, in millionths, rounded up:
    /// between -1_000_000 and 1_000_000.
    pub correlation: i32,
}

impl Default for MatchResult {
    /// The origin, with a score of zero.
    fn default() -> (m: Self)
        ensures
            m.pos.x == 0,
            m.pos.y == 0,
            m.correlation == 0,
    {
        MatchResult { pos: Point { x: 0, y: 0 }, correlation: 0 }
    }
}

/// Why no match was attempted.
#[derive(Clone, Copy, Debug, PartialEq, Eq, Structural)]
pub enum MatchError {
    /// The template is wider or higher than the source.
    TemplateLargerThanSource,
    /// The size threshold is zero.
    ZeroSizeThreshold,
    /// The template has no pixels.
    ZeroArea,
    /// The template has no pixels left once it is reduced as the source is.
    VanishesAtScale,
    /// An image holds more than [`MAX_PIXELS`] pixels.
    ImageTooLarge,
}

/// The best offset of a template in a source of the same scale, and the score
/// there.
#[derive(Clone, Copy, Debug, PartialEq, Eq, Structural)]
pub struct OffsetMatch {
    /// The column of the template's top-left corner.
    pub x: u32,
    /// The row of the template's top-left corner.
    pub y: u32,
    /// The score in millionths, rounded up.
    pub correlation: i32,
}

/// The score, in millionths and rounded up, of the template at offset
/// `(x, y)` of the source.
pub open spec fn score_at(s: NormalizedView, t: NormalizedView, x: int, y: int) -> int {
    score_ppm(cross(s, t, x, y), s.sum_squares * t.sum_squares)
}

/// The greater of two lengths.
pub open spec fn longer(width: nat, height: nat) -> nat {
    if width >= height {
        width
    } else {
        height
    }
}

/// The longer side of an image.
pub open spec fn longest_side(image: LumaView) -> nat {
    longer(image.width, image.height)
}

/// Whether a source is reduced before the search.
pub open spec fn is_reduced(source: LumaView, threshold: nat) -> bool {
    longest_side(source) > threshold
}

/// A length of the source or the template, at the scale of the search.
pub open spec fn reduced_length(length: nat, source: LumaView, threshold: nat) -> nat {
    if is_reduced(source, threshold) {
        (length * threshold / longest_side(source)) as nat
    } else {
        length
    }
}

/// The source or the template, at the scale of the search.
pub open spec fn reduced(image: LumaView, source: LumaView, threshold: nat) -> LumaView {
    if is_reduced(source, threshold) {
        LumaView {
            width: reduced_length(image.width, source, threshold),
            height: reduced_length(image.height, source, threshold),
            pixels: nearest_resized(
                image.pixels,
                image.width,
                image.height,
                reduced_length(image.width, source, threshold),
                reduced_length(image.height, source, threshold),
            ),
        }
    } else {
        image
    }
}

/// A coordinate of the search, mapped back to the source.
pub open spec fn restored_length(offset: int, source: LumaView, threshold: nat) -> int {
    if is_reduced(source, threshold) {
        offset * longest_side(source) / (threshold as int)
    } else {
        offset
    }
}

/// The error with which a match is refused, if it is.
pub open spec fn match_error(source: LumaView, template: LumaView, threshold: nat) -> Option<
    MatchError,
> {
    if template.width > source.width || template.height > source.height {
        Some(MatchError::TemplateLargerThanSource)
    } else if threshold == 0 {
        Some(MatchError::ZeroSizeThreshold)
    } else if template.width == 0 || template.height == 0 {
        Some(MatchError::ZeroArea)
    } else if reduced_length(template.width, source, threshold) == 0 || reduced_length(
        template.height,
        source,
        threshold,
    ) == 0 {
        Some(MatchError::VanishesAtScale)
    } else {
        None
    }
}

/// The column of the centre of the best placement, in source coordinates.
pub open spec fn matched_x(source: LumaView, template: LumaView, threshold: nat) -> int {
    let s = normalized(reduced(source, source, threshold));
    let t = normalized(reduced(template, source, threshold));
    restored_length(best_offset(s, t).0, source, threshold) + template.width / 2
}

/// The row of the centre of the best placement, in source coordinates.
pub open spec fn matched_y(source: LumaView, template: LumaView, threshold: nat) -> int {
    let s = normalized(reduced(source, source, threshold));
    let t = normalized(reduced(template, source, threshold));
    restored_length(best_offset(s, t).1, source, threshold) + template.height / 2
}

/// The score of the best placement, in millionths and rounded up.
pub open spec fn matched_score(source: LumaView, template: LumaView, threshold: nat) -> int {
    let s = normalized(reduced(source, source, threshold));
    let t = normalized(reduced(template, source, threshold));
    score_at(s, t, best_offset(s, t).0, best_offset(s, t).1)
}

/// What a match of `template` in `source` comes to.
pub open spec fn expected_match(source: LumaView, template: LumaView, threshold: nat) -> Result<
    MatchResult,
    MatchError,
> {
    match match_error(source, template, threshold) {
        Some(e) => Err(e),
        None => Ok(
            MatchResult {
                pos: Point {
                    x: matched_x(source, template, threshold) as u32,
                    y: matched_y(source, template, threshold) as u32,
                },
                correlation: matched_score(source, template, threshold) as i32,
            },
        ),
    }
}

/// The first offset with the greatest cross-correlation, and the score
/// there. Where either image has one constant luminance, every
/// cross-correlation is zero: the offset is the origin and the score zero.
pub fn match_normalized(source: &NormalizedImage, template: &NormalizedImage) -> (m: OffsetMatch)
    requires
        source.wf(),
        template.wf(),
        fits(source@, template@),
    ensures
        is_best_offset(source@, template@, m.x as int, m.y as int),
        (m.x as int, m.y as int) == best_offset(source@, template@),
        m.correlation == score_at(source@, template@, m.x as int, m.y as int),
        -PPM <= m.correlation <= PPM,
{
    let placement: Placement = best_match(source, template);
    proof {
        lemma_cross_bounded(source@, template@, placement.x as int, placement.y as int);
        lemma_energy_bound(source@);
        lemma_energy_bound(template@);
    }
    let correlation: i32 = correlation_ppm(
        placement.cross,
        source.sum_squares(),
        template.sum_squares(),
    );
    OffsetMatch { x: placement.x, y: placement.y, correlation }
}

/// A sum of squares of a normalized image is within [`MAX_ENERGY`].
pub proof fn lemma_energy_bound(n: NormalizedView)
    requires
        n.wf(),
    ensures
        0 <= n.sum_squares <= MAX_ENERGY,
{
    lemma_square_sum_bound(n.values);
    assert(n.values.len() * MAX_SQUARE <= MAX_PIXELS * MAX_SQUARE) by (nonlinear_arith)
        requires
            n.values.len() <= MAX_PIXELS,
    ;
}

proof fn lemma_square_sum_bound(values: Seq<int>)
    requires
        forall|i: int|
            0 <= i < values.len() ==> -crate::normalize::MAX_DEVIATION <= #[trigger] values[i]
                <= crate::normalize::MAX_DEVIATION,
    ensures
        0 <= square_sum(values) <= values.len() * MAX_SQUARE,
    decreases values.len(),
{
    if values.len() > 0 {
        lemma_square_sum_bound(values.drop_last());
        crate::correlate::lemma_product_bound(values.last(), values.last());
        assert(values.last() * values.last() >= 0) by (nonlinear_arith);
    }
}

/// The match of two grids that are not empty, the template no larger than the
/// source, at the scale at which they are given.
fn match_prepared(source: &LumaImage, template: &LumaImage) -> (m: OffsetMatch)
    requires
        source.wf(),
        template.wf(),
        0 < template@.width <= source@.width,
        0 < template@.height <= source@.height,
    ensures
        is_best_offset(normalized(source@), normalized(template@), m.x as int, m.y as int),
        (m.x as int, m.y as int) == best_offset(normalized(source@), normalized(template@)),
        m.correlation == score_at(
            normalized(source@),
            normalized(template@),
            m.x as int,
            m.y as int,
        ),
        -PPM <= m.correlation <= PPM,
{
    let s = normalize_pixels(source);
    let t = normalize_pixels(template);
    match_normalized(&s, &t)
}

/// The best offset of a template in a source, both taken as they are, and
/// the score there.
pub fn match_grids(source: &LumaImage, template: &LumaImage) -> (r: Result<OffsetMatch, MatchError>)
    requires
        source.wf(),
        template.wf(),
    ensures
        match r {
            Ok(m) => {
                &&& 0 < template@.width <= source@.width
                &&& 0 < template@.height <= source@.height
                &&& (m.x as int, m.y as int) == best_offset(
                    normalized(source@),
                    normalized(template@),
                )
                &&& m.x + template@.width <= source@.width
                &&& m.y + template@.height <= source@.height
                &&& m.correlation == score_at(
                    normalized(source@),
                    normalized(template@),
                    m.x as int,
                    m.y as int,
                )
                &&& -PPM <= m.correlation <= PPM
            },
            Err(MatchError::TemplateLargerThanSource) => template@.width > source@.width
                || template@.height > source@.height,
            Err(MatchError::ZeroArea) => template@.width <= source@.width && template@.height
                <= source@.height && (template@.width == 0 || template@.height == 0),
            Err(_) => false,
        },
{
    if template.width() > source.width() || template.height() > source.height() {
        Err(MatchError::TemplateLargerThanSource)
    } else if template.width() == 0 || template.height() == 0 {
        Err(MatchError::ZeroArea)
    } else {
        Ok(match_prepared(source, template))
    }
}

/// `length` at the scale at which `longest` becomes `threshold`.
fn reduce_length(length: u32, longest: u32, threshold: u32) -> (r: u32)
    requires
        0 < threshold < longest,
        length <= longest,
    ensures
        r == length * threshold / (longest as int),
        r <= length,
        r <= threshold,
{
    proof {
        lemma_reduced_bounds(length as int, longest as int, threshold as int);
    }
    assert(length * threshold <= 0xffff_ffff * 0xffff_ffff) by (nonlinear_arith)
        requires
            0 <= length <= 0xffff_ffff,
            0 <= threshold <= 0xffff_ffff,
    ;
    let scaled: u64 = (length as u64 * threshold as u64) / longest as u64;
    scaled as u32
}

proof fn lemma_reduced_bounds(length: int, longest: int, threshold: int)
    requires
        0 < threshold < longest,
        0 <= length <= longest,
    ensures
        0 <= length * threshold / longest <= length,
        length * threshold / longest <= threshold,
{
    let r = length * threshold / longest;
    vstd::arithmetic::div_mod::lemma_fundamental_div_mod(length * threshold, longest);
    vstd::arithmetic::div_mod::lemma_mod_pos_bound(length * threshold, longest);
    assert(length * threshold >= 0) by (nonlinear_arith)
        requires
            length >= 0,
            threshold > 0,
    ;
    assert(length * threshold <= length * longest) by (nonlinear_arith)
        requires
            length >= 0,
            threshold < longest,
    ;
    assert(length * threshold <= longest * threshold) by (nonlinear_arith)
        requires
            length <= longest,
            threshold > 0,
    ;
    assert(r >= 0) by (nonlinear_arith)
        requires
            longest * r + (length * threshold) % longest >= 0,
            (length * threshold) % longest < longest,
            longest > 0,
    ;
    assert(r <= length) by (nonlinear_arith)
        requires
            longest * r <= length * longest,
            longest > 0,
    ;
    assert(r <= threshold) by (nonlinear_arith)
        requires
            longest * r <= longest * threshold,
            longest > 0,
    ;
}

/// A lesser length is no greater at the reduced scale.
proof fn lemma_reduced_ordered(a: int, b: int, longest: int, threshold: int)
    requires
        0 <= a <= b,
        0 < threshold,
        0 < longest,
    ensures
        a * threshold / longest <= b * threshold / longest,
{
    assert(a * threshold <= b * threshold) by (nonlinear_arith)
        requires
            a <= b,
            threshold > 0,
    ;
    vstd::arithmetic::div_mod::lemma_div_is_ordered(a * threshold, b * threshold, longest);
}

/// The centre of a placement found at the reduced scale lies inside the
/// source.
proof fn lemma_center_inside(
    offset: int,
    template_length: int,
    source_length: int,
    longest: int,
    threshold: int,
)
    requires
        0 < threshold < longest,
        0 <= template_length <= source_length <= longest,
        template_length * threshold / longest >= 1,
        0 <= offset <= source_length * threshold / longest - template_length * threshold / longest,
    ensures
        0 <= offset * longest / threshold + template_length / 2 < source_length,
{
    let sr = source_length * threshold / longest;
    let tr = template_length * threshold / longest;
    let a = offset * longest / threshold;
    let h = template_length / 2;
    vstd::arithmetic::div_mod::lemma_fundamental_div_mod(source_length * threshold, longest);
    vstd::arithmetic::div_mod::lemma_fundamental_div_mod(template_length * threshold, longest);
    vstd::arithmetic::div_mod::lemma_fundamental_div_mod(offset * longest, threshold);
    assert(source_length * threshold >= 0) by (nonlinear_arith)
        requires
            source_length >= 0,
            threshold > 0,
    ;
    assert(template_length * threshold >= 0) by (nonlinear_arith)
        requires
            template_length >= 0,
            threshold > 0,
    ;
    assert(offset * longest >= 0) by (nonlinear_arith)
        requires
            offset >= 0,
            longest > 0,
    ;
    vstd::arithmetic::div_mod::lemma_mod_pos_bound(source_length * threshold, longest);
    vstd::arithmetic::div_mod::lemma_mod_pos_bound(template_length * threshold, longest);
    vstd::arithmetic::div_mod::lemma_mod_pos_bound(offset * longest, threshold);
    assert(longest * sr <= source_length * threshold);
    assert(template_length * threshold < longest * tr + longest);
    assert(threshold * a <= offset * longest);
    assert(a >= 0) by (nonlinear_arith)
        requires
            threshold * a + (offset * longest) % threshold >= 0,
            (offset * longest) % threshold < threshold,
            threshold > 0,
    ;
    assert(offset * longest <= longest * sr - longest * tr) by (nonlinear_arith)
        requires
            offset <= sr - tr,
            longest > 0,
    ;
    assert(longest <= longest * tr) by (nonlinear_arith)
        requires
            tr >= 1,
            longest > 0,
    ;
    assert(2 * (h * threshold) <= template_length * threshold) by (nonlinear_arith)
        requires
            2 * h <= template_length,
            threshold > 0,
    ;
    assert(h * threshold < longest * tr);
    assert((a + h) * threshold == threshold * a + h * threshold) by (nonlinear_arith);
    assert((a + h) * threshold < source_length * threshold);
    assert(a + h < source_length) by (nonlinear_arith)
        requires
            (a + h) * threshold < source_length * threshold,
            threshold > 0,
    ;
}

/// The coordinate, in the source, of the centre of a template of
/// `template_length` found at `offset` of the reduced source.
fn restore_center(
    offset: u32,
    template_length: u32,
    source_length: u32,
    longest: u32,
    threshold: u32,
) -> (r: u32)
    requires
        0 < threshold < longest,
        template_length <= source_length <= longest,
        template_length * threshold / (longest as int) >= 1,
        offset <= source_length * threshold / (longest as int) - template_length * threshold / (
        longest as int),
    ensures
        r == offset * longest / (threshold as int) + template_length / 2,
        r < source_length,
{
    proof {
        lemma_center_inside(
            offset as int,
            template_length as int,
            source_length as int,
            longest as int,
            threshold as int,
        );
    }
    assert(offset * longest <= 0xffff_ffff * 0xffff_ffff) by (nonlinear_arith)
        requires
            0 <= offset <= 0xffff_ffff,
            0 <= longest <= 0xffff_ffff,
    ;
    let restored: u64 = (offset as u64 * longest as u64) / threshold as u64;
    (restored + (template_length / 2) as u64) as u32
}

/// The match of a reduced template in a reduced source, reported in the
/// coordinates of the source as it was before the reduction.
///
/// The two grids are what reduction made of a source of `source_width` x
/// `source_height` pixels and of a template of `width` x `height` pixels, at
/// the scale at which the longer side of the source becomes
/// `size_threshold`: their sizes are the whole parts of the reduced lengths.
/// The best offset in the reduced source is multiplied by the factor of the
/// reduction, and half the size of the template is added.
pub fn match_reduced(
    reduced_source: &LumaImage,
    reduced_template: &LumaImage,
    source_width: u32,
    source_height: u32,
    width: u32,
    height: u32,
    size_threshold: u32,
) -> (m: MatchResult)
    requires
        reduced_source.wf(),
        reduced_template.wf(),
        0 < size_threshold < longer(source_width as nat, source_height as nat),
        width <= source_width,
        height <= source_height,
        reduced_source@.width == source_width * size_threshold / (longer(
            source_width as nat,
            source_height as nat,
        ) as int),
        reduced_source@.height == source_height * size_threshold / (longer(
            source_width as nat,
            source_height as nat,
        ) as int),
        reduced_template@.width == width * size_threshold / (longer(
            source_width as nat,
            source_height as nat,
        ) as int),
        reduced_template@.height == height * size_threshold / (longer(
            source_width as nat,
            source_height as nat,
        ) as int),
        reduced_template@.width >= 1,
        reduced_template@.height >= 1,
    ensures
        m.pos.x == best_offset(normalized(reduced_source@), normalized(reduced_template@)).0
            * longer(source_width as nat, source_height as nat) / (size_threshold as int) + width
            / 2,
        m.pos.y == best_offset(normalized(reduced_source@), normalized(reduced_template@)).1
            * longer(source_width as nat, source_height as nat) / (size_threshold as int) + height
            / 2,
        m.correlation == score_at(
            normalized(reduced_source@),
            normalized(reduced_template@),
            best_offset(normalized(reduced_source@), normalized(reduced_template@)).0,
            best_offset(normalized(reduced_source@), normalized(reduced_template@)).1,
        ),
        width / 2 <= m.pos.x < source_width,
        height / 2 <= m.pos.y < source_height,
        -PPM <= m.correlation <= PPM,
{
    let longest: u32 = if source_width >= source_height {
        source_width
    } else {
        source_height
    };
    proof {
        lemma_reduced_ordered(
            width as int,
            source_width as int,
            longest as int,
            size_threshold as int,
        );
        lemma_reduced_ordered(
            height as int,
            source_height as int,
            longest as int,
            size_threshold as int,
        );
    }
    let found: OffsetMatch = match_prepared(reduced_source, reduced_template);
    let x: u32 = restore_center(found.x, width, source_width, longest, size_threshold);
    let y: u32 = restore_center(found.y, height, source_height, longest, size_threshold);
    MatchResult { pos: Point { x, y }, correlation: found.correlation }
}

/// Finds the template in the source and reports the centre of the best
/// placement with its score.
///
/// A source whose longer side exceeds `size_threshold` is searched at the
/// scale at which that side equals the threshold. Ties go to the first offset
/// met when rows are scanned from the top and each row from the left. Where
/// the source or the template has one constant luminance at the scale of the
/// search, the score is zero and the placement is the first offset.
pub fn match_template_center(source: &LumaImage, template: &LumaImage, size_threshold: u32) -> (r:
    Result<MatchResult, MatchError>)
    requires
        source.wf(),
        template.wf(),
    ensures
        r == expected_match(source@, template@, size_threshold as nat),
        r == Err::<MatchResult, MatchError>(MatchError::TemplateLargerThanSource) <==> template@.width
            > source@.width || template@.height > source@.height,
        match r {
            Ok(m) => {
                &&& m.pos.x == matched_x(source@, template@, size_threshold as nat)
                &&& m.pos.y == matched_y(source@, template@, size_threshold as nat)
                &&& m.correlation == matched_score(source@, template@, size_threshold as nat)
                &&& template@.width / 2 <= m.pos.x < source@.width
                &&& template@.height / 2 <= m.pos.y < source@.height
                &&& -PPM <= m.correlation <= PPM
            },
            Err(_) => true,
        },
{
    let source_width: u32 = source.width();
    let source_height: u32 = source.height();
    let width: u32 = template.width();
    let height: u32 = template.height();
    if width > source_width || height > source_height {
        return Err(MatchError::TemplateLargerThanSource);
    }
    if size_threshold == 0 {
        return Err(MatchError::ZeroSizeThreshold);
    }
    if width == 0 || height == 0 {
        return Err(MatchError::ZeroArea);
    }
    let longest: u32 = if source_width >= source_height {
        source_width
    } else {
        source_height
    };
    if longest > size_threshold {
        let reduced_source_width: u32 = reduce_length(source_width, longest, size_threshold);
        let reduced_source_height: u32 = reduce_length(source_height, longest, size_threshold);
        let reduced_width: u32 = reduce_length(width, longest, size_threshold);
        let reduced_height: u32 = reduce_length(height, longest, size_threshold);
        if reduced_width == 0 || reduced_height == 0 {
            return Err(MatchError::VanishesAtScale);
        }
        proof {
            lemma_reduced_ordered(
                width as int,
                source_width as int,
                longest as int,
                size_threshold as int,
            );
            lemma_reduced_ordered(
                height as int,
                source_height as int,
                longest as int,
                size_threshold as int,
            );
        }
        let small_source = source.shrink(reduced_source_width, reduced_source_height);
        let small_template = template.shrink(reduced_width, reduced_height);
        assert(small_source@ == reduced(source@, source@, size_threshold as nat));
        assert(small_template@ == reduced(template@, source@, size_threshold as nat));
        Ok(
            match_reduced(
                &small_source,
                &small_template,
                source_width,
                source_height,
                width,
                height,
                size_threshold,
            ),
        )
    } else {
        let found: OffsetMatch = match_prepared(source, template);
        Ok(
            MatchResult {
                pos: Point { x: found.x + width / 2, y: found.y + height / 2 },
                correlation: found.correlation,
            },
        )
    }
}

/// What a match of one decoded image in another comes to.
pub open spec fn expected_frame_match(
    source: DynamicImage,
    template: DynamicImage,
    threshold: nat,
) -> Result<MatchResult, MatchError> {
    if frame_width(template) <= frame_width(source) && frame_height(template) <= frame_height(
        source,
    ) && frame_width(source) * frame_height(source) > MAX_PIXELS {
        Err(MatchError::ImageTooLarge)
    } else {
        expected_match(frame_view(source), frame_view(template), threshold)
    }
}

/// Finds the template in the source, both by their luminance, and reports
/// the centre of the best placement with its score: see
/// [`match_template_center`].
pub fn cv_match_template_center(
    source: &DynamicImage,
    template: &DynamicImage,
    match_size_threshold: u32,
) -> (r: Result<MatchResult, MatchError>)
    ensures
        r == expected_frame_match(*source, *template, match_size_threshold as nat),
        r == Err::<MatchResult, MatchError>(MatchError::TemplateLargerThanSource) <==> frame_width(
            *template,
        ) > frame_width(*source) || frame_height(*template) > frame_height(*source),
        match r {
            Ok(m) => {
                &&& m.pos.x == matched_x(
                    frame_view(*source),
                    frame_view(*template),
                    match_size_threshold as nat,
                )
                &&& m.pos.y == matched_y(
                    frame_view(*source),
                    frame_view(*template),
                    match_size_threshold as nat,
                )
                &&& m.correlation == matched_score(
                    frame_view(*source),
                    frame_view(*template),
                    match_size_threshold as nat,
                )
                &&& frame_width(*template) / 2 <= m.pos.x < frame_width(*source)
                &&& frame_height(*template) / 2 <= m.pos.y < frame_height(*source)
                &&& -PPM <= m.correlation <= PPM
            },
            Err(_) => true,
        },
{
    if template.width() > source.width() || template.height() > source.height() {
        return Err(MatchError::TemplateLargerThanSource);
    }
    let source_luma = match LumaImage::from_frame(source) {
        Ok(luma) => luma,
        Err(_) => {
            return Err(MatchError::ImageTooLarge);
        },
    };
    proof {
        crate::luma::lemma_area_monotone(
            frame_width(*template) as int,
            frame_height(*template) as int,
            frame_width(*source) as int,
            frame_height(*source) as int,
        );
    }
    let template_luma = match LumaImage::from_frame(template) {
        Ok(luma) => luma,
        Err(_) => {
            return Err(MatchError::ImageTooLarge);
        },
    };
    match_template_center(&source_luma, &template_luma, match_size_threshold)
}

/// The score of every placement lies between minus one and one.
pub proof fn lemma_score_in_unit_range(s: NormalizedView, t: NormalizedView, x: int, y: int)
    requires
        s.wf(),
        t.wf(),
        valid_offset(s, t, x, y),
    ensures
        -PPM <= score_at(s, t, x, y) <= PPM,
{
    lemma_cross_bounded(s, t, x, y);
    lemma_energy_bound(s);
    lemma_energy_bound(t);
    assert(s.sum_squares * t.sum_squares >= 0) by (nonlinear_arith)
        requires
            s.sum_squares >= 0,
            t.sum_squares >= 0,
    ;
    crate::score::lemma_score_exists(cross(s, t, x, y), s.sum_squares * t.sum_squares);
}

/// An image matched against itself, at a size threshold that does not reduce
/// it, is found at its centre. The score is exactly one, unless the image has
/// one constant luminance: then it is zero.
pub proof fn lemma_self_match(image: LumaView, threshold: nat)
    requires
        image.wf(),
        image.width > 0,
        image.height > 0,
        threshold >= longest_side(image),
    ensures
        expected_match(image, image, threshold) == Ok::<MatchResult, MatchError>(
            MatchResult {
                pos: Point { x: (image.width / 2) as u32, y: (image.height / 2) as u32 },
                correlation: if image.is_flat() {
                    0
                } else {
                    PPM
                },
            },
        ),
{
    let s = normalized(image);
    crate::normalize::lemma_normalized_wf(image);
    crate::normalize::lemma_flat_iff_zero_squares(image);
    assert(reduced(image, image, threshold) == image);
    assert(is_best_offset(s, s, 0, 0));
    let p = best_offset(s, s);
    assert(is_best_offset(s, s, p.0, p.1)) by {
        let origin = (0int, 0int);
        assert(is_best_offset(s, s, origin.0, origin.1));
    }
    lemma_best_offset_unique(s, s, 0, 0, p.0, p.1);
    assert(window(s, s, 0, 0) =~= s.values) by {
        assert forall|j: int| 0 <= j < s.values.len() implies window(s, s, 0, 0)[j]
            == s.values[j] by {
            crate::correlate::lemma_template_cell(s, j);
        }
    }
    assert(cross(s, s, 0, 0) == s.sum_squares);
    let energy = s.sum_squares;
    lemma_energy_bound(s);
    if energy == 0 {
        assert(energy * energy == 0) by (nonlinear_arith)
            requires
                energy == 0,
        ;
        assert(is_score(energy, energy * energy, 0));
        crate::score::lemma_score_exists(energy, energy * energy);
        lemma_score_unique(energy, energy * energy, 0, score_ppm(energy, energy * energy));
    } else {
        crate::score::lemma_score_of_equal(energy);
    }
}

/// Where the source or the template has one constant luminance at the scale
/// of the search, the match is the first offset with a score of zero: the
/// centre reported is that of the template laid into the top-left corner.
pub proof fn lemma_flat_match(source: LumaView, template: LumaView, threshold: nat)
    requires
        reduced(source, source, threshold).wf(),
        reduced(template, source, threshold).wf(),
        match_error(source, template, threshold) is None,
        reduced(source, source, threshold).is_flat() || reduced(
            template,
            source,
            threshold,
        ).is_flat(),
    ensures
        expected_match(source, template, threshold) == Ok::<MatchResult, MatchError>(
            MatchResult {
                pos: Point { x: (template.width / 2) as u32, y: (template.height / 2) as u32 },
                correlation: 0,
            },
        ),
{
    let rs = reduced(source, source, threshold);
    let rt = reduced(template, source, threshold);
    let s = normalized(rs);
    let t = normalized(rt);
    if is_reduced(source, threshold) {
        lemma_reduced_ordered(
            template.width as int,
            source.width as int,
            longest_side(source) as int,
            threshold as int,
        );
        lemma_reduced_ordered(
            template.height as int,
            source.height as int,
            longest_side(source) as int,
            threshold as int,
        );
        assert(restored_length(0, source, threshold) == 0) by {
            assert(0int * longest_side(source) == 0) by (nonlinear_arith);
        }
    }
    crate::normalize::lemma_normalized_wf(rs);
    crate::normalize::lemma_normalized_wf(rt);
    crate::normalize::lemma_flat_iff_zero_squares(rs);
    crate::normalize::lemma_flat_iff_zero_squares(rt);
    crate::correlate::lemma_best_offset_of_flat(s, t);
    crate::correlate::lemma_cross_of_flat(s, t, 0, 0);
    let energy = s.sum_squares * t.sum_squares;
    assert(energy == 0) by (nonlinear_arith)
        requires
            energy == s.sum_squares * t.sum_squares,
            s.sum_squares == 0 || t.sum_squares == 0,
    ;
    assert(is_score(0, energy, 0));
    crate::score::lemma_score_exists(0, energy);
    lemma_score_unique(0, energy, 0, score_ppm(0, energy));
}

/// A reduced search resolves positions to the factor of the reduction:
/// neighbouring offsets of the search lie, in the source, as far apart as
/// the whole part of that factor, or one pixel more.
pub proof fn lemma_reduced_resolution(offset: int, source: LumaView, threshold: nat)
    requires
        offset >= 0,
        threshold > 0,
        is_reduced(source, threshold),
    ensures
        longest_side(source) / threshold <= restored_length(offset + 1, source, threshold)
            - restored_length(offset, source, threshold) <= longest_side(source) / threshold + 1,
{
    let m = longest_side(source) as int;
    let t = threshold as int;
    let a = offset * m;
    assert((offset + 1) * m == a + m) by (nonlinear_arith)
        requires
            a == offset * m,
    ;
    assert(a >= 0) by (nonlinear_arith)
        requires
            a == offset * m,
            offset >= 0,
            m >= 0,
    ;
    vstd::arithmetic::div_mod::lemma_fundamental_div_mod(a, t);
    vstd::arithmetic::div_mod::lemma_fundamental_div_mod(m, t);
    vstd::arithmetic::div_mod::lemma_mod_pos_bound(a, t);
    vstd::arithmetic::div_mod::lemma_mod_pos_bound(m, t);
    let q = a / t + m / t;
    let r = a % t + m % t;
    assert(t * (a / t) + t * (m / t) == q * t) by (nonlinear_arith)
        requires
            q == a / t + m / t,
    ;
    if r < t {
        vstd::arithmetic::div_mod::lemma_fundamental_div_mod_converse(a + m, t, q, r);
    } else {
        assert((q + 1) * t == q * t + t) by (nonlinear_arith);
        vstd::arithmetic::div_mod::lemma_fundamental_div_mod_converse(a + m, t, q + 1, r - t);
    }
}

/// Offsets of a reduced search that lie `steps` apart lie, in the source, at
/// most `steps` times the whole part of the factor plus one apart, and in
/// the same order.
proof fn lemma_restored_span(offset: int, steps: int, source: LumaView, threshold: nat)
    requires
        offset >= 0,
        steps >= 0,
        threshold > 0,
        is_reduced(source, threshold),
    ensures
        0 <= restored_length(offset + steps, source, threshold) - restored_length(
            offset,
            source,
            threshold,
        ) <= steps * (longest_side(source) / threshold + 1),
    decreases steps,
{
    let q = (longest_side(source) / threshold) as int;
    if steps > 0 {
        lemma_restored_span(offset, steps - 1, source, threshold);
        lemma_reduced_resolution(offset + steps - 1, source, threshold);
        assert(steps * (q + 1) == (steps - 1) * (q + 1) + (q + 1)) by (nonlinear_arith);
    } else {
        assert(0 * (q + 1) == 0) by (nonlinear_arith);
    }
}

/// How far the distance between two offsets of a reduced search is.
pub open spec fn offset_distance(a: int, b: int) -> int {
    if a >= b {
        a - b
    } else {
        b - a
    }
}

/// A reduced search and a full search report centres that lie apart by no
/// more than the factor of the reduction, taken whole and plus one, for
/// every step that the reduced search's offset lies from the offset to which
/// the full search's placement reduces, and once more.
///
/// Here `full_offset` is a coordinate of the placement that the full search
/// found, and `reduced_offset` the same coordinate of the placement that the
/// reduced search found; what is bounded is the distance between
/// `full_offset` and `reduced_offset` mapped back to the source.
pub proof fn lemma_reduced_tolerance(
    full_offset: int,
    reduced_offset: int,
    source: LumaView,
    threshold: nat,
)
    requires
        full_offset >= 0,
        reduced_offset >= 0,
        threshold > 0,
        is_reduced(source, threshold),
    ensures
        offset_distance(restored_length(reduced_offset, source, threshold), full_offset) <= (
        offset_distance(reduced_offset, full_offset * threshold / (longest_side(source) as int))
            + 1) * (longest_side(source) / threshold + 1),
{
    let m = longest_side(source) as int;
    let t = threshold as int;
    let q = m / t;
    let o = full_offset * t / m;
    let d = offset_distance(reduced_offset, o);
    // The full offset lies between its reduction mapped back and the next
    // offset of the reduced search mapped back.
    assert(full_offset * t >= 0) by (nonlinear_arith)
        requires
            full_offset >= 0,
            t > 0,
    ;
    vstd::arithmetic::div_mod::lemma_fundamental_div_mod(full_offset * t, m);
    vstd::arithmetic::div_mod::lemma_mod_pos_bound(full_offset * t, m);
    assert(o >= 0) by (nonlinear_arith)
        requires
            m * o + (full_offset * t) % m >= 0,
            (full_offset * t) % m < m,
            m > 0,
    ;
    assert(o * m >= 0) by (nonlinear_arith)
        requires
            o >= 0,
            m > 0,
    ;
    vstd::arithmetic::div_mod::lemma_fundamental_div_mod(o * m, t);
    vstd::arithmetic::div_mod::lemma_mod_pos_bound(o * m, t);
    let low = o * m / t;
    assert(low <= full_offset) by (nonlinear_arith)
        requires
            t * low <= o * m,
            m * o <= full_offset * t,
            t > 0,
    ;
    assert((o + 1) * m == o * m + m) by (nonlinear_arith);
    vstd::arithmetic::div_mod::lemma_fundamental_div_mod((o + 1) * m, t);
    vstd::arithmetic::div_mod::lemma_mod_pos_bound((o + 1) * m, t);
    let high = (o + 1) * m / t;
    assert(full_offset <= high) by (nonlinear_arith)
        requires
            full_offset * t < m * o + m,
            (o + 1) * m == o * m + m,
            (o + 1) * m < t * high + t,
            t > 0,
    ;
    lemma_reduced_resolution(o, source, threshold);
    assert(restored_length(o, source, threshold) == low);
    assert(restored_length(o + 1, source, threshold) == high);
    if reduced_offset >= o {
        lemma_restored_span(o, reduced_offset - o, source, threshold);
    } else {
        lemma_restored_span(reduced_offset, o - reduced_offset, source, threshold);
    }
    assert((d + 1) * (q + 1) == d * (q + 1) + (q + 1)) by (nonlinear_arith);
}

/// A search reduced by the size threshold `reduced_threshold` and a search
/// that `full_threshold` does not reduce report centres whose distance, in
/// each coordinate, is bounded by the factor of the reduction: by its whole
/// part plus one, once for every step between the offset that the reduced
/// search found and the offset to which the full search's placement reduces,
/// and once more.
pub proof fn lemma_reduced_match_tolerance(
    source: LumaView,
    template: LumaView,
    reduced_threshold: nat,
    full_threshold: nat,
)
    requires
        source.wf(),
        template.wf(),
        reduced(source, source, reduced_threshold).wf(),
        reduced(template, source, reduced_threshold).wf(),
        is_reduced(source, reduced_threshold),
        !is_reduced(source, full_threshold),
        match_error(source, template, reduced_threshold) is None,
        match_error(source, template, full_threshold) is None,
    ensures
        ({
            let full = best_offset(normalized(source), normalized(template));
            let found = best_offset(
                normalized(reduced(source, source, reduced_threshold)),
                normalized(reduced(template, source, reduced_threshold)),
            );
            let longest = longest_side(source) as int;
            let factor = longest / (reduced_threshold as int) + 1;
            &&& offset_distance(
                matched_x(source, template, reduced_threshold),
                matched_x(source, template, full_threshold),
            ) <= (offset_distance(found.0, full.0 * reduced_threshold / longest) + 1) * factor
            &&& offset_distance(
                matched_y(source, template, reduced_threshold),
                matched_y(source, template, full_threshold),
            ) <= (offset_distance(found.1, full.1 * reduced_threshold / longest) + 1) * factor
        }),
{
    let rs = reduced(source, source, reduced_threshold);
    let rt = reduced(template, source, reduced_threshold);
    lemma_reduced_ordered(
        template.width as int,
        source.width as int,
        longest_side(source) as int,
        reduced_threshold as int,
    );
    lemma_reduced_ordered(
        template.height as int,
        source.height as int,
        longest_side(source) as int,
        reduced_threshold as int,
    );
    crate::normalize::lemma_normalized_wf(source);
    crate::normalize::lemma_normalized_wf(template);
    crate::normalize::lemma_normalized_wf(rs);
    crate::normalize::lemma_normalized_wf(rt);
    crate::correlate::lemma_best_offset_exists(normalized(source), normalized(template));
    crate::correlate::lemma_best_offset_exists(normalized(rs), normalized(rt));
    let full = best_offset(normalized(source), normalized(template));
    let found = best_offset(normalized(rs), normalized(rt));
    assert(reduced(source, source, full_threshold) == source);
    assert(reduced(template, source, full_threshold) == template);
    lemma_reduced_tolerance(full.0, found.0, source, reduced_threshold);
    lemma_reduced_tolerance(full.1, found.1, source, reduced_threshold);
}

/// Where the search is not reduced and an offset is the first at which the
/// cross-correlation is greatest, the match is the centre of the template
/// laid at that offset, with the score there.
pub proof fn lemma_best_placement_is_reported(
    source: LumaView,
    template: LumaView,
    threshold: nat,
    x: int,
    y: int,
)
    requires
        match_error(source, template, threshold) is None,
        !is_reduced(source, threshold),
        is_best_offset(normalized(source), normalized(template), x, y),
    ensures
        expected_match(source, template, threshold) == Ok::<MatchResult, MatchError>(
            MatchResult {
                pos: Point {
                    x: (x + template.width / 2) as u32,
                    y: (y + template.height / 2) as u32,
                },
                correlation: score_at(normalized(source), normalized(template), x, y) as i32,
            },
        ),
{
    let s = normalized(source);
    let t = normalized(template);
    let p = best_offset(s, t);
    assert(is_best_offset(s, t, p.0, p.1)) by {
        let given = (x, y);
        assert(is_best_offset(s, t, given.0, given.1));
    }
    lemma_best_offset_unique(s, t, x, y, p.0, p.1);
}

/// A decoded image matched against itself, at a size threshold that does
/// not reduce it, is found at its centre, with a score of exactly one unless
/// its luminance is constant.
pub proof fn lemma_self_match_of_frame(image: DynamicImage, threshold: nat)
    requires
        frame_view(image).wf(),
        frame_width(image) > 0,
        frame_height(image) > 0,
        threshold >= longest_side(frame_view(image)),
    ensures
        expected_frame_match(image, image, threshold) == Ok::<MatchResult, MatchError>(
            MatchResult {
                pos: Point {
                    x: (frame_width(image) / 2) as u32,
                    y: (frame_height(image) / 2) as u32,
                },
                correlation: if frame_view(image).is_flat() {
                    0
                } else {
                    PPM
                },
            },
        ),
{
    lemma_self_match(frame_view(image), threshold);
}

} // verus!
