//! Cross-correlation of a normalized template with the windows of a
//! normalized source, and the search for the best window.

use crate::luma::lemma_cell_in_grid;
use crate::normalize::{dot, ints, square_sum, NormalizedImage, NormalizedView, MAX_DEVIATION, MAX_SQUARE};
use vstd::arithmetic::div_mod::{
    lemma_div_is_ordered,
    lemma_fundamental_div_mod,
    lemma_fundamental_div_mod_converse,
    lemma_mod_pos_bound,
};
use vstd::prelude::*;

verus! {

/// Whether the template is no wider and no higher than the source.
pub open spec fn fits(s: NormalizedView, t: NormalizedView) -> bool {
    t.width <= s.width && t.height <= s.height
}

/// Whether the template, with its top-left corner at column `x` of row `y`,
/// lies inside the source.
pub open spec fn valid_offset(s: NormalizedView, t: NormalizedView, x: int, y: int) -> bool {
    0 <= x <= s.width - t.width && 0 <= y <= s.height - t.height
}

/// The index in the source of the cell under cell `j` of the template.
pub open spec fn window_index(s: NormalizedView, t: NormalizedView, x: int, y: int, j: int) -> int {
    (y + j / (t.width as int)) * s.width + x + j % (t.width as int)
}

/// The source cells under the template, in the template's order.
pub open spec fn window(s: NormalizedView, t: NormalizedView, x: int, y: int) -> Seq<int> {
    Seq::new(t.values.len(), |j: int| s.values[window_index(s, t, x, y, j)])
}

/// The sum over the template of source deviation times template deviation.
pub open spec fn cross(s: NormalizedView, t: NormalizedView, x: int, y: int) -> int {
    dot(window(s, t, x, y), t.values)
}

/// Whether the first offset comes before the second when rows are scanned
/// from the top and each row from the left.
pub open spec fn precedes(x1: int, y1: int, x2: int, y2: int) -> bool {
    y1 < y2 || (y1 == y2 && x1 < x2)
}

/// Whether `(x, y)` is the first offset, in scan order, at which the
/// cross-correlation is greatest.
pub open spec fn is_best_offset(s: NormalizedView, t: NormalizedView, x: int, y: int) -> bool {
    &&& valid_offset(s, t, x, y)
    &&& forall|x2: int, y2: int|
        valid_offset(s, t, x2, y2) ==> {
            &&& #[trigger] cross(s, t, x2, y2) <= cross(s, t, x, y)
            &&& precedes(x2, y2, x, y) ==> cross(s, t, x2, y2) < cross(s, t, x, y)
        }
}

/// The first offset, in scan order, at which the cross-correlation is
/// greatest.
pub open spec fn best_offset(s: NormalizedView, t: NormalizedView) -> (int, int) {
    choose|p: (int, int)| is_best_offset(s, t, p.0, p.1)
}

/// Adding one more pair of entries adds their product.
pub proof fn lemma_dot_step(a: Seq<int>, b: Seq<int>, j: int)
    requires
        0 <= j < a.len(),
        j < b.len(),
    ensures
        dot(a.take(j + 1), b.take(j + 1)) == dot(a.take(j), b.take(j)) + a[j] * b[j],
{
    assert(a.take(j + 1).drop_last() =~= a.take(j));
    assert(b.take(j + 1).drop_last() =~= b.take(j));
}

/// A sum of squares is not negative.
pub proof fn lemma_square_sum_nonnegative(a: Seq<int>)
    ensures
        square_sum(a) >= 0,
    decreases a.len(),
{
    if a.len() > 0 {
        lemma_square_sum_nonnegative(a.drop_last());
        assert(a.last() * a.last() >= 0) by (nonlinear_arith);
    }
}

/// Cell `(dx, dy)` of the template has index `dy * width + dx`, and lies
/// over cell `(x + dx, y + dy)` of the source.
pub proof fn lemma_window_cell(
    s: NormalizedView,
    t: NormalizedView,
    x: int,
    y: int,
    dx: int,
    dy: int,
)
    requires
        s.wf(),
        t.wf(),
        valid_offset(s, t, x, y),
        0 <= dx < t.width,
        0 <= dy < t.height,
    ensures
        0 <= dy * t.width + dx < t.values.len(),
        window_index(s, t, x, y, dy * t.width + dx) == (y + dy) * s.width + x + dx,
        0 <= (y + dy) * s.width + x + dx < s.values.len(),
{
    lemma_cell_in_grid(dx, dy, t.width as int, t.height as int);
    lemma_cell_in_grid(x + dx, y + dy, s.width as int, s.height as int);
    lemma_fundamental_div_mod_converse(dy * t.width + dx, t.width as int, dy, dx);
}

/// The cross-correlation at offset `(x, y)`.
pub fn cross_at(source: &NormalizedImage, template: &NormalizedImage, x: u32, y: u32) -> (c: i128)
    requires
        source.wf(),
        template.wf(),
        valid_offset(source@, template@, x as int, y as int),
    ensures
        c == cross(source@, template@, x as int, y as int),
        -(template@.values.len() * MAX_SQUARE) <= c <= template@.values.len() * MAX_SQUARE,
{
    let source_width: usize = source.width() as usize;
    let width: usize = template.width() as usize;
    let height: usize = template.height() as usize;
    let source_values = source.values();
    let values = template.values();
    let ghost s = source@;
    let ghost t = template@;
    let ghost w = window(s, t, x as int, y as int);
    let mut acc: i128 = 0;
    let mut j: usize = 0;
    let mut dy: usize = 0;
    while dy < height
        invariant
            s == source@,
            t == template@,
            s.wf(),
            t.wf(),
            valid_offset(s, t, x as int, y as int),
            w == window(s, t, x as int, y as int),
            ints(source_values@) == s.values,
            ints(values@) == t.values,
            source_width == s.width,
            width == t.width,
            height == t.height,
            dy <= height,
            j == dy * width,
            acc == dot(w.take(j as int), t.values.take(j as int)),
            -(j * MAX_SQUARE) <= acc <= j * MAX_SQUARE,
        decreases height - dy,
    {
        proof {
            lemma_window_cell(s, t, x as int, y as int, 0, dy as int);
        }
        let base: usize = (y as usize + dy) * source_width + x as usize;
        let mut dx: usize = 0;
        while dx < width
            invariant
                s.wf(),
                t.wf(),
                valid_offset(s, t, x as int, y as int),
                w == window(s, t, x as int, y as int),
                ints(source_values@) == s.values,
                ints(values@) == t.values,
                source_width == s.width,
                width == t.width,
                height == t.height,
                dy < height,
                dx <= width,
                j == dy * width + dx,
                base == (y + dy) * source_width + x,
                acc == dot(w.take(j as int), t.values.take(j as int)),
                -(j * MAX_SQUARE) <= acc <= j * MAX_SQUARE,
            decreases width - dx,
        {
            proof {
                lemma_window_cell(s, t, x as int, y as int, dx as int, dy as int);
                lemma_dot_step(w, t.values, j as int);
                assert(s.values[base + dx] == source_values@[base + dx]);
                assert(t.values[j as int] == values@[j as int]);
            }
            let a: i64 = source_values[base + dx];
            let b: i64 = values[j];
            proof {
                lemma_product_bound(a as int, b as int);
            }
            acc = acc + (a as i128) * (b as i128);
            j = j + 1;
            dx = dx + 1;
        }
        proof {
            assert((dy + 1) * width == dy * width + width) by (nonlinear_arith);
        }
        dy = dy + 1;
    }
    proof {
        assert(height * width == width * height) by (nonlinear_arith);
        assert(w.take(j as int) =~= w);
        assert(t.values.take(j as int) =~= t.values);
    }
    acc
}

/// The product of two deviations is within [`MAX_SQUARE`].
pub proof fn lemma_product_bound(a: int, b: int)
    requires
        -MAX_DEVIATION <= a <= MAX_DEVIATION,
        -MAX_DEVIATION <= b <= MAX_DEVIATION,
    ensures
        -MAX_SQUARE <= a * b <= MAX_SQUARE,
{
    assert(-MAX_SQUARE <= a * b <= MAX_SQUARE) by (nonlinear_arith)
        requires
            -MAX_DEVIATION <= a <= MAX_DEVIATION,
            -MAX_DEVIATION <= b <= MAX_DEVIATION,
            MAX_DEVIATION * MAX_DEVIATION == MAX_SQUARE,
            MAX_DEVIATION > 0,
    ;
}

/// Where the template matches best, and the cross-correlation there.
#[derive(Clone, Copy, Debug)]
pub struct Placement {
    /// The column of the template's top-left corner.
    pub x: u32,
    /// The row of the template's top-left corner.
    pub y: u32,
    /// The cross-correlation at that offset.
    pub cross: i128,
}

/// No two offsets are both the best.
pub proof fn lemma_best_offset_unique(
    s: NormalizedView,
    t: NormalizedView,
    x1: int,
    y1: int,
    x2: int,
    y2: int,
)
    requires
        is_best_offset(s, t, x1, y1),
        is_best_offset(s, t, x2, y2),
    ensures
        x1 == x2,
        y1 == y2,
{
    assert(cross(s, t, x1, y1) <= cross(s, t, x2, y2));
    assert(cross(s, t, x2, y2) <= cross(s, t, x1, y1));
    if precedes(x1, y1, x2, y2) {
        assert(cross(s, t, x1, y1) < cross(s, t, x2, y2));
    }
    if precedes(x2, y2, x1, y1) {
        assert(cross(s, t, x2, y2) < cross(s, t, x1, y1));
    }
}

/// Scans every offset, row by row from the top and each row from the left,
/// and keeps the first at which the cross-correlation is greatest.
pub fn best_match(source: &NormalizedImage, template: &NormalizedImage) -> (p: Placement)
    requires
        source.wf(),
        template.wf(),
        fits(source@, template@),
    ensures
        is_best_offset(source@, template@, p.x as int, p.y as int),
        (p.x as int, p.y as int) == best_offset(source@, template@),
        p.cross == cross(source@, template@, p.x as int, p.y as int),
        -(template@.values.len() * MAX_SQUARE) <= p.cross <= template@.values.len() * MAX_SQUARE,
{
    let ghost s = source@;
    let ghost t = template@;
    let max_x: u32 = source.width() - template.width();
    let max_y: u32 = source.height() - template.height();
    let mut best: i128 = cross_at(source, template, 0, 0);
    let mut best_x: u32 = 0;
    let mut best_y: u32 = 0;
    let mut y: u32 = 0;
    while y <= max_y
        invariant
            s == source@,
            t == template@,
            source.wf(),
            template.wf(),
            max_x == s.width - t.width,
            max_y == s.height - t.height,
            max_y < u32::MAX,
            max_x < u32::MAX,
            y <= max_y + 1,
            valid_offset(s, t, best_x as int, best_y as int),
            best == cross(s, t, best_x as int, best_y as int),
            -(t.values.len() * MAX_SQUARE) <= best <= t.values.len() * MAX_SQUARE,
            (best_x == 0 && best_y == 0) || best_y < y,
            forall|x2: int, y2: int|
                valid_offset(s, t, x2, y2) && y2 < y ==> {
                    &&& #[trigger] cross(s, t, x2, y2) <= best
                    &&& precedes(x2, y2, best_x as int, best_y as int) ==> cross(s, t, x2, y2)
                        < best
                },
        decreases max_y + 1 - y,
    {
        let mut x: u32 = 0;
        while x <= max_x
            invariant
                s == source@,
                t == template@,
                source.wf(),
                template.wf(),
                max_x == s.width - t.width,
                max_y == s.height - t.height,
                max_y < u32::MAX,
                max_x < u32::MAX,
                y <= max_y,
                x <= max_x + 1,
                valid_offset(s, t, best_x as int, best_y as int),
                best == cross(s, t, best_x as int, best_y as int),
                -(t.values.len() * MAX_SQUARE) <= best <= t.values.len() * MAX_SQUARE,
                (best_x == 0 && best_y == 0) || precedes(
                    best_x as int,
                    best_y as int,
                    x as int,
                    y as int,
                ),
                forall|x2: int, y2: int|
                    valid_offset(s, t, x2, y2) && precedes(x2, y2, x as int, y as int) ==> {
                        &&& #[trigger] cross(s, t, x2, y2) <= best
                        &&& precedes(x2, y2, best_x as int, best_y as int) ==> cross(s, t, x2, y2)
                            < best
                    },
            decreases max_x + 1 - x,
        {
            let c: i128 = cross_at(source, template, x, y);
            if c > best {
                best = c;
                best_x = x;
                best_y = y;
            }
            x = x + 1;
        }
        y = y + 1;
    }
    proof {
        assert(is_best_offset(s, t, best_x as int, best_y as int));
        let p = best_offset(s, t);
        assert(is_best_offset(s, t, p.0, p.1)) by {
            let q = (best_x as int, best_y as int);
            assert(is_best_offset(s, t, q.0, q.1));
        }
        lemma_best_offset_unique(s, t, best_x as int, best_y as int, p.0, p.1);
    }
    Placement { x: best_x, y: best_y, cross: best }
}

/// For non-negative `a` and `b` with `c * c <= a * b`:
/// `2 * c * x * y <= a * y * y + b * x * x`.
proof fn lemma_mixed_term(a: int, b: int, c: int, x: int, y: int)
    requires
        a >= 0,
        b >= 0,
        c * c <= a * b,
    ensures
        2 * (c * (x * y)) <= a * (y * y) + b * (x * x),
{
    let e = a * (y * y) + b * (x * x) - 2 * (c * (x * y));
    if a == 0 {
        assert(c * c <= 0) by (nonlinear_arith)
            requires
                c * c <= a * b,
                a == 0,
        ;
        assert(c == 0) by (nonlinear_arith)
            requires
                c * c <= 0,
        ;
        assert(b * (x * x) >= 0) by (nonlinear_arith)
            requires
                b >= 0,
        ;
        assert(a * (y * y) == 0) by (nonlinear_arith)
            requires
                a == 0,
        ;
        assert(c * (x * y) == 0) by (nonlinear_arith)
            requires
                c == 0,
        ;
    } else {
        let u = a * y - c * x;
        let d = a * b - c * c;
        let ay = a * y;
        let cx = c * x;
        assert(a * e == a * (a * (y * y)) + a * (b * (x * x)) - 2 * (a * (c * (x * y))))
            by (nonlinear_arith)
            requires
                e == a * (y * y) + b * (x * x) - 2 * (c * (x * y)),
        ;
        assert(a * (a * (y * y)) == ay * ay) by (nonlinear_arith)
            requires
                ay == a * y,
        ;
        assert(a * (c * (x * y)) == ay * cx) by (nonlinear_arith)
            requires
                ay == a * y,
                cx == c * x,
        ;
        assert(a * (b * (x * x)) == (a * b) * (x * x)) by (nonlinear_arith);
        assert(cx * cx == (c * c) * (x * x)) by (nonlinear_arith)
            requires
                cx == c * x,
        ;
        assert(u * u == ay * ay - 2 * (ay * cx) + cx * cx) by (nonlinear_arith)
            requires
                u == ay - cx,
        ;
        assert(d * (x * x) == (a * b) * (x * x) - (c * c) * (x * x)) by (nonlinear_arith)
            requires
                d == a * b - c * c,
        ;
        assert(a * e == u * u + d * (x * x));
        assert(u * u >= 0) by (nonlinear_arith);
        assert(d * (x * x) >= 0) by (nonlinear_arith)
            requires
                d >= 0,
        ;
        assert(e >= 0) by (nonlinear_arith)
            requires
                a * e >= 0,
                a > 0,
        ;
    }
}

/// The Cauchy-Schwarz inequality: the square of a sum of products is at most
/// the product of the two sums of squares.
pub proof fn lemma_cauchy_schwarz(a: Seq<int>, b: Seq<int>)
    requires
        a.len() == b.len(),
    ensures
        dot(a, b) * dot(a, b) <= square_sum(a) * square_sum(b),
    decreases a.len(),
{
    if a.len() == 0 {
        assert(dot(a, b) * dot(a, b) == 0) by (nonlinear_arith)
            requires
                dot(a, b) == 0,
        ;
        assert(square_sum(a) * square_sum(b) == 0) by (nonlinear_arith)
            requires
                square_sum(a) == 0,
        ;
    } else {
        let a0 = a.drop_last();
        let b0 = b.drop_last();
        let x = a.last();
        let y = b.last();
        let c = dot(a0, b0);
        let p = square_sum(a0);
        let q = square_sum(b0);
        lemma_cauchy_schwarz(a0, b0);
        lemma_square_sum_nonnegative(a0);
        lemma_square_sum_nonnegative(b0);
        lemma_mixed_term(p, q, c, x, y);
        assert(dot(a, b) == c + x * y);
        assert(square_sum(a) == p + x * x);
        assert(square_sum(b) == q + y * y);
        let xy = x * y;
        let xx = x * x;
        let yy = y * y;
        assert((c + xy) * (c + xy) == c * c + 2 * (c * xy) + xy * xy) by (nonlinear_arith);
        assert((p + xx) * (q + yy) == p * q + p * yy + q * xx + xx * yy) by (nonlinear_arith);
        assert(xy * xy == xx * yy) by (nonlinear_arith)
            requires
                xy == x * y,
                xx == x * x,
                yy == y * y,
        ;
    }
}

/// Whether `indices` lists positions below `n` in strictly rising order.
pub open spec fn rising(indices: Seq<int>, n: int) -> bool {
    &&& forall|i: int| 0 <= i < indices.len() ==> 0 <= #[trigger] indices[i] < n
    &&& forall|i: int, j: int|
        0 <= i < j < indices.len() ==> #[trigger] indices[i] < #[trigger] indices[j]
}

/// The entries of `values` at the listed positions.
pub open spec fn picked(values: Seq<int>, indices: Seq<int>) -> Seq<int> {
    Seq::new(indices.len(), |j: int| values[indices[j]])
}

/// The squares of some of the entries sum to no more than the squares of all.
pub proof fn lemma_picked_square_sum(values: Seq<int>, indices: Seq<int>)
    requires
        rising(indices, values.len() as int),
    ensures
        square_sum(picked(values, indices)) <= square_sum(values),
    decreases values.len(),
{
    lemma_square_sum_nonnegative(values);
    if indices.len() == 0 {
    } else {
        let n = values.len() as int;
        let last = indices.last();
        assert(0 <= indices[indices.len() - 1] < n);
        let rest = values.drop_last();
        lemma_square_sum_nonnegative(rest);
        assert(values.last() * values.last() >= 0) by (nonlinear_arith);
        if last == n - 1 {
            let fewer = indices.drop_last();
            assert(rising(fewer, n - 1)) by {
                assert forall|i: int| 0 <= i < fewer.len() implies 0 <= #[trigger] fewer[i] < n
                    - 1 by {
                    assert(indices[i] < indices[indices.len() - 1]);
                }
            }
            lemma_picked_square_sum(rest, fewer);
            assert(picked(values, indices).drop_last() =~= picked(rest, fewer));
            assert(picked(values, indices).last() == values.last());
        } else {
            assert(rising(indices, n - 1)) by {
                assert forall|i: int| 0 <= i < indices.len() implies 0 <= #[trigger] indices[i]
                    < n - 1 by {
                    if i < indices.len() - 1 {
                        assert(indices[i] < indices[indices.len() - 1]);
                    }
                }
            }
            lemma_picked_square_sum(rest, indices);
            assert(picked(values, indices) =~= picked(rest, indices));
        }
    }
}

/// The positions in the source of the cells under the template.
pub open spec fn window_indices(s: NormalizedView, t: NormalizedView, x: int, y: int) -> Seq<int> {
    Seq::new(t.values.len(), |j: int| window_index(s, t, x, y, j))
}

/// The cells under the template are distinct cells of the source, met in
/// rising order.
pub proof fn lemma_window_rising(s: NormalizedView, t: NormalizedView, x: int, y: int)
    requires
        s.wf(),
        t.wf(),
        valid_offset(s, t, x, y),
    ensures
        rising(window_indices(s, t, x, y), s.values.len() as int),
{
    let indices = window_indices(s, t, x, y);
    let tw = t.width as int;
    let th = t.height as int;
    let sw = s.width as int;
    assert forall|j: int| 0 <= j < indices.len() implies 0 <= #[trigger] indices[j]
        < s.values.len() by {
        lemma_template_cell(t, j);
        lemma_window_cell(s, t, x, y, j % tw, j / tw);
    }
    assert forall|i: int, j: int| 0 <= i < j < indices.len() implies #[trigger] indices[i]
        < #[trigger] indices[j] by {
        lemma_template_cell(t, i);
        lemma_template_cell(t, j);
        lemma_div_is_ordered(i, j, tw);
        if i / tw == j / tw {
        } else {
            assert((y + i / tw) * sw + sw <= (y + j / tw) * sw) by (nonlinear_arith)
                requires
                    i / tw + 1 <= j / tw,
                    sw >= 0,
            ;
        }
    }
}

/// Cell `j` of the template lies in row `j / width` at column `j % width`.
pub proof fn lemma_template_cell(t: NormalizedView, j: int)
    requires
        t.wf(),
        0 <= j < t.values.len(),
    ensures
        0 <= j % (t.width as int) < t.width,
        0 <= j / (t.width as int) < t.height,
        j == (j / (t.width as int)) * t.width + j % (t.width as int),
{
    let tw = t.width as int;
    let th = t.height as int;
    lemma_fundamental_div_mod(j, tw);
    lemma_mod_pos_bound(j, tw);
    let q = j / tw;
    let r = j % tw;
    assert(tw * q == q * tw) by (nonlinear_arith);
    assert(q >= 0) by (nonlinear_arith)
        requires
            q * tw + r >= 0,
            r < tw,
            tw > 0,
    ;
    assert(q < th) by (nonlinear_arith)
        requires
            q * tw + r < tw * th,
            r >= 0,
            tw > 0,
    ;
}

/// The square of a cross-correlation is at most the product of the two sums
/// of squares: the score of a placement is between -1 and 1.
pub proof fn lemma_cross_bounded(s: NormalizedView, t: NormalizedView, x: int, y: int)
    requires
        s.wf(),
        t.wf(),
        valid_offset(s, t, x, y),
    ensures
        cross(s, t, x, y) * cross(s, t, x, y) <= s.sum_squares * t.sum_squares,
{
    let w = window(s, t, x, y);
    lemma_cauchy_schwarz(w, t.values);
    lemma_window_rising(s, t, x, y);
    lemma_picked_square_sum(s.values, window_indices(s, t, x, y));
    assert(w =~= picked(s.values, window_indices(s, t, x, y)));
    lemma_square_sum_nonnegative(w);
    lemma_square_sum_nonnegative(t.values);
    assert(square_sum(w) * square_sum(t.values) <= square_sum(s.values) * square_sum(t.values))
        by (nonlinear_arith)
        requires
            square_sum(w) <= square_sum(s.values),
            square_sum(t.values) >= 0,
    ;
}

/// A sum of products is zero where one side holds nothing but zeros.
pub proof fn lemma_dot_with_zeros(a: Seq<int>, b: Seq<int>)
    requires
        a.len() == b.len(),
        (forall|i: int| 0 <= i < a.len() ==> a[i] == 0) || (forall|i: int|
            0 <= i < b.len() ==> b[i] == 0),
    ensures
        dot(a, b) == 0,
    decreases a.len(),
{
    if a.len() > 0 {
        let a0 = a.drop_last();
        let b0 = b.drop_last();
        if forall|i: int| 0 <= i < a.len() ==> a[i] == 0 {
            assert forall|i: int| 0 <= i < a0.len() implies a0[i] == 0 by {
                assert(a[i] == 0);
            }
            assert(a[a.len() - 1] == 0);
        } else {
            assert forall|i: int| 0 <= i < b0.len() implies b0[i] == 0 by {
                assert(b[i] == 0);
            }
            assert(b[b.len() - 1] == 0);
        }
        lemma_dot_with_zeros(a0, b0);
        assert(a.last() * b.last() == 0) by (nonlinear_arith)
            requires
                a.last() == 0 || b.last() == 0,
        ;
    }
}

/// Where the source or the template has no deviation from its mean, the
/// cross-correlation is zero at every offset.
pub proof fn lemma_cross_of_flat(s: NormalizedView, t: NormalizedView, x: int, y: int)
    requires
        s.wf(),
        t.wf(),
        valid_offset(s, t, x, y),
        s.sum_squares == 0 || t.sum_squares == 0,
    ensures
        cross(s, t, x, y) == 0,
{
    let w = window(s, t, x, y);
    crate::normalize::lemma_zero_square_sum(s.values);
    crate::normalize::lemma_zero_square_sum(t.values);
    if s.sum_squares == 0 {
        lemma_window_rising(s, t, x, y);
        assert forall|j: int| 0 <= j < w.len() implies w[j] == 0 by {
            let k = window_indices(s, t, x, y)[j];
            assert(0 <= k < s.values.len());
            assert(s.values[k] == 0);
        }
    }
    lemma_dot_with_zeros(w, t.values);
}

/// Where the source or the template has no deviation from its mean, the
/// best offset is the first one.
pub proof fn lemma_best_offset_of_flat(s: NormalizedView, t: NormalizedView)
    requires
        s.wf(),
        t.wf(),
        fits(s, t),
        s.sum_squares == 0 || t.sum_squares == 0,
    ensures
        best_offset(s, t) == (0int, 0int),
{
    lemma_cross_of_flat(s, t, 0, 0);
    assert forall|x2: int, y2: int| valid_offset(s, t, x2, y2) implies #[trigger] cross(
        s,
        t,
        x2,
        y2,
    ) <= cross(s, t, 0, 0) && (precedes(x2, y2, 0, 0) ==> cross(s, t, x2, y2) < cross(
        s,
        t,
        0,
        0,
    )) by {
        lemma_cross_of_flat(s, t, x2, y2);
    }
    let origin = (0int, 0int);
    assert(is_best_offset(s, t, origin.0, origin.1));
    let p = best_offset(s, t);
    lemma_best_offset_unique(s, t, 0, 0, p.0, p.1);
}

/// The cross-correlation at the `k`-th offset in scan order.
pub open spec fn cross_in_order(s: NormalizedView, t: NormalizedView, k: int) -> int {
    let columns = s.width - t.width + 1;
    cross(s, t, k % columns, k / columns)
}

/// Among the first `n` offsets in scan order, the first at which the
/// cross-correlation is greatest.
proof fn lemma_best_among(s: NormalizedView, t: NormalizedView, n: int) -> (b: int)
    requires
        n >= 1,
    ensures
        0 <= b < n,
        forall|k: int|
            0 <= k < n ==> {
                &&& #[trigger] cross_in_order(s, t, k) <= cross_in_order(s, t, b)
                &&& k < b ==> cross_in_order(s, t, k) < cross_in_order(s, t, b)
            },
    decreases n,
{
    if n == 1 {
        0
    } else {
        let before = lemma_best_among(s, t, n - 1);
        if cross_in_order(s, t, n - 1) > cross_in_order(s, t, before) {
            n - 1
        } else {
            before
        }
    }
}

/// Wherever the template fits into the source there is a best offset, and
/// only one.
pub proof fn lemma_best_offset_exists(s: NormalizedView, t: NormalizedView)
    requires
        s.wf(),
        t.wf(),
        fits(s, t),
    ensures
        is_best_offset(s, t, best_offset(s, t).0, best_offset(s, t).1),
{
    let columns = s.width - t.width + 1;
    let rows = s.height - t.height + 1;
    assert(columns * rows >= 1) by (nonlinear_arith)
        requires
            columns >= 1,
            rows >= 1,
    ;
    let b = lemma_best_among(s, t, columns * rows);
    let x = b % columns;
    let y = b / columns;
    lemma_fundamental_div_mod(b, columns);
    lemma_mod_pos_bound(b, columns);
    assert(0 <= y < rows) by (nonlinear_arith)
        requires
            b == columns * y + x,
            0 <= x < columns,
            0 <= b < columns * rows,
    ;
    assert forall|x2: int, y2: int| valid_offset(s, t, x2, y2) implies #[trigger] cross(
        s,
        t,
        x2,
        y2,
    ) <= cross(s, t, x, y) && (precedes(x2, y2, x, y) ==> cross(s, t, x2, y2) < cross(
        s,
        t,
        x,
        y,
    )) by {
        let k = y2 * columns + x2;
        lemma_cell_in_grid(x2, y2, columns, rows);
        lemma_fundamental_div_mod_converse(k, columns, y2, x2);
        assert(cross_in_order(s, t, k) == cross(s, t, x2, y2));
        if precedes(x2, y2, x, y) {
            if y2 < y {
                assert(k < b) by (nonlinear_arith)
                    requires
                        k == y2 * columns + x2,
                        b == columns * y + x,
                        y2 + 1 <= y,
                        0 <= x2 < columns,
                        0 <= x,
                ;
            } else {
                assert(k < b) by (nonlinear_arith)
                    requires
                        k == y2 * columns + x2,
                        b == columns * y + x,
                        y2 == y,
                        x2 < x,
                ;
            }
        }
    }
    let found = (x, y);
    assert(is_best_offset(s, t, found.0, found.1));
}

} // verus!
