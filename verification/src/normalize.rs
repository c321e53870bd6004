//! Mean-subtracted luminance. To stay in whole numbers every deviation from
//! the mean is kept multiplied by the number of pixels `n`:
//! `n * pixel - sum` in place of `pixel - sum / n`. Correlation scores are
//! ratios in which that factor cancels.

use crate::luma::{LumaImage, LumaView, MAX_PIXELS};
use vstd::prelude::*;

verus! {

/// The largest magnitude of a scaled deviation: 255 * 2^28.
pub const MAX_DEVIATION: i64 = 68_451_041_280;

/// The square of [`MAX_DEVIATION`].
pub const MAX_SQUARE: u128 = 4685545052316264038400;

/// The sum of all pixels.
pub open spec fn pixel_sum(pixels: Seq<u8>) -> int
    decreases pixels.len(),
{
    if pixels.len() == 0 {
        0
    } else {
        pixel_sum(pixels.drop_last()) + pixels.last()
    }
}

/// The deviation of pixel `i` from the mean, times the number of pixels.
pub open spec fn deviation(pixels: Seq<u8>, i: int) -> int {
    pixels.len() * pixels[i] - pixel_sum(pixels)
}

/// The scaled deviations of all pixels, in order.
pub open spec fn deviations(pixels: Seq<u8>) -> Seq<int> {
    Seq::new(pixels.len(), |i: int| deviation(pixels, i))
}

/// The sum of the products of corresponding entries.
pub open spec fn dot(a: Seq<int>, b: Seq<int>) -> int
    decreases a.len(),
{
    if a.len() == 0 || b.len() == 0 {
        0
    } else {
        dot(a.drop_last(), b.drop_last()) + a.last() * b.last()
    }
}

/// The sum of the squares of all entries.
pub open spec fn square_sum(values: Seq<int>) -> int {
    dot(values, values)
}

/// The entries of a vector of machine integers, as mathematical integers.
pub open spec fn ints(values: Seq<i64>) -> Seq<int> {
    Seq::new(values.len(), |i: int| values[i] as int)
}

/// What a [`NormalizedImage`] stands for.
pub struct NormalizedView {
    pub width: nat,
    pub height: nat,
    /// The scaled deviations, row by row.
    pub values: Seq<int>,
    /// The sum of the squares of `values`.
    pub sum_squares: int,
}

/// The normalized image of a luminance grid.
pub open spec fn normalized(image: LumaView) -> NormalizedView {
    NormalizedView {
        width: image.width,
        height: image.height,
        values: deviations(image.pixels),
        sum_squares: square_sum(deviations(image.pixels)),
    }
}

impl NormalizedView {
    /// The grid is not empty, every entry is within [`MAX_DEVIATION`], and
    /// `sum_squares` is the sum of the squares of the entries.
    pub open spec fn wf(self) -> bool {
        &&& 0 < self.width <= u32::MAX
        &&& 0 < self.height <= u32::MAX
        &&& self.values.len() == self.width * self.height
        &&& self.values.len() <= MAX_PIXELS
        &&& forall|i: int|
            0 <= i < self.values.len() ==> -MAX_DEVIATION <= #[trigger] self.values[i]
                <= MAX_DEVIATION
        &&& self.sum_squares == square_sum(self.values)
    }
}

/// A luminance grid with its mean subtracted, and the sum of the squares of
/// what is left.
#[derive(Debug)]
pub struct NormalizedImage {
    width: u32,
    height: u32,
    values: Vec<i64>,
    sum_squares: u128,
}

impl View for NormalizedImage {
    type V = NormalizedView;

    closed spec fn view(&self) -> NormalizedView {
        NormalizedView {
            width: self.width as nat,
            height: self.height as nat,
            values: ints(self.values@),
            sum_squares: self.sum_squares as int,
        }
    }
}

impl NormalizedImage {
    pub open spec fn wf(&self) -> bool {
        self@.wf()
    }

    pub fn width(&self) -> (w: u32)
        ensures
            w == self@.width,
    {
        self.width
    }

    pub fn height(&self) -> (h: u32)
        ensures
            h == self@.height,
    {
        self.height
    }

    /// The scaled deviations, row by row.
    pub fn values(&self) -> (v: &Vec<i64>)
        ensures
            ints(v@) == self@.values,
    {
        &self.values
    }

    /// The sum of the squares of the scaled deviations. It is zero exactly
    /// for a grid of one constant luminance.
    pub fn sum_squares(&self) -> (s: u128)
        ensures
            s == self@.sum_squares,
    {
        self.sum_squares
    }
}

/// The image has no pixels.
#[derive(Clone, Copy, Debug, PartialEq, Eq, Structural)]
pub struct ZeroArea;

/// Subtracts the mean luminance from every pixel and sums the squares of the
/// deviations. An image without pixels has no mean and is rejected.
pub fn normalize(image: &LumaImage) -> (r: Result<NormalizedImage, ZeroArea>)
    requires
        image.wf(),
    ensures
        match r {
            Ok(n) => n.wf() && n@ == normalized(image@),
            Err(_) => image@.width == 0 || image@.height == 0,
        },
        r.is_ok() <==> image@.width > 0 && image@.height > 0,
{
    if image.width() == 0 || image.height() == 0 {
        Err(ZeroArea)
    } else {
        Ok(normalize_pixels(image))
    }
}

/// The normalized image of a grid that has pixels.
pub fn normalize_pixels(image: &LumaImage) -> (n: NormalizedImage)
    requires
        image.wf(),
        image@.width > 0,
        image@.height > 0,
    ensures
        n.wf(),
        n@ == normalized(image@),
{
    let width: u32 = image.width();
    let height: u32 = image.height();
    let pixels = image.pixels();
    let n: usize = pixels.len();
    assert(n > 0) by (nonlinear_arith)
        requires
            n == width * height,
            width > 0,
            height > 0,
    ;
    let mut sum: u64 = 0;
    let mut i: usize = 0;
    while i < n
        invariant
            i <= n,
            n == pixels@.len(),
            n <= MAX_PIXELS,
            sum == pixel_sum(pixels@.take(i as int)),
            sum <= 255 * i,
        decreases n - i,
    {
        proof {
            assert(pixels@.take(i + 1).drop_last() =~= pixels@.take(i as int));
        }
        sum = sum + pixels[i] as u64;
        i = i + 1;
    }
    proof {
        assert(pixels@.take(n as int) =~= pixels@);
    }
    let mut values: Vec<i64> = Vec::with_capacity(n);
    let mut sum_squares: u128 = 0;
    let mut j: usize = 0;
    while j < n
        invariant
            j <= n,
            n == pixels@.len(),
            0 < n <= MAX_PIXELS,
            sum == pixel_sum(pixels@),
            sum <= 255 * n,
            values@.len() == j,
            forall|k: int| 0 <= k < j ==> #[trigger] values@[k] == deviation(pixels@, k),
            forall|k: int| 0 <= k < j ==> -MAX_DEVIATION <= #[trigger] values@[k] <= MAX_DEVIATION,
            sum_squares == square_sum(ints(values@)),
            sum_squares <= j * MAX_SQUARE,
        decreases n - j,
    {
        let pixel: u8 = pixels[j];
        assert(0 <= n * pixel <= 255 * n) by (nonlinear_arith)
            requires
                0 <= pixel <= 255,
                0 <= n,
        ;
        let scaled: i64 = (n as i64) * (pixel as i64);
        let value: i64 = scaled - sum as i64;
        let ghost before = ints(values@);
        values.push(value);
        proof {
            assert(ints(values@).drop_last() =~= before);
            assert(ints(values@).last() == value);
            assert(value * value <= MAX_SQUARE) by (nonlinear_arith)
                requires
                    -MAX_DEVIATION <= value <= MAX_DEVIATION,
                    MAX_DEVIATION * MAX_DEVIATION == MAX_SQUARE,
            ;
            assert(value * value >= 0) by (nonlinear_arith);
        }
        sum_squares = sum_squares + (value as i128 * value as i128) as u128;
        j = j + 1;
    }
    proof {
        assert(ints(values@) =~= deviations(pixels@));
    }
    NormalizedImage { width, height, values, sum_squares }
}

/// The sum of `n` pixels lies between 0 and `255 * n`.
pub proof fn lemma_pixel_sum_bounds(pixels: Seq<u8>)
    ensures
        0 <= pixel_sum(pixels) <= 255 * pixels.len(),
    decreases pixels.len(),
{
    if pixels.len() > 0 {
        lemma_pixel_sum_bounds(pixels.drop_last());
    }
}

/// The normalized image of a grid that is not empty is well formed.
pub proof fn lemma_normalized_wf(image: LumaView)
    requires
        image.wf(),
        image.width > 0,
        image.height > 0,
    ensures
        normalized(image).wf(),
{
    let n = image.pixels.len() as int;
    lemma_pixel_sum_bounds(image.pixels);
    assert forall|i: int| 0 <= i < n implies -MAX_DEVIATION <= #[trigger] deviations(
        image.pixels,
    )[i] <= MAX_DEVIATION by {
        let pixel = image.pixels[i];
        assert(0 <= n * pixel <= 255 * n) by (nonlinear_arith)
            requires
                0 <= pixel <= 255,
                0 <= n,
        ;
    }
}

/// The sum of pixels that all equal `c`.
proof fn lemma_constant_sum(pixels: Seq<u8>, c: u8)
    requires
        forall|i: int| 0 <= i < pixels.len() ==> pixels[i] == c,
    ensures
        pixel_sum(pixels) == pixels.len() * c,
    decreases pixels.len(),
{
    if pixels.len() > 0 {
        lemma_constant_sum(pixels.drop_last(), c);
        assert(pixels.len() * c == (pixels.len() - 1) * c + c) by (nonlinear_arith);
    }
}

/// A sum of squares is zero exactly if every entry is zero.
pub proof fn lemma_zero_square_sum(values: Seq<int>)
    ensures
        square_sum(values) >= 0,
        square_sum(values) == 0 <==> forall|i: int| 0 <= i < values.len() ==> values[i] == 0,
    decreases values.len(),
{
    if values.len() > 0 {
        let rest = values.drop_last();
        let last = values.last();
        lemma_zero_square_sum(rest);
        assert(last * last >= 0) by (nonlinear_arith);
        assert(last * last == 0 <==> last == 0) by (nonlinear_arith);
        if square_sum(values) == 0 {
            assert forall|i: int| 0 <= i < values.len() implies values[i] == 0 by {
                if i < values.len() - 1 {
                    assert(rest[i] == 0);
                }
            }
        } else {
            if forall|i: int| 0 <= i < values.len() ==> values[i] == 0 {
                assert(values[values.len() - 1] == 0);
                assert forall|i: int| 0 <= i < rest.len() implies rest[i] == 0 by {
                    assert(values[i] == 0);
                }
            }
        }
    }
}

/// The sum of squares of a normalized image is zero exactly if the image has
/// one constant luminance.
pub proof fn lemma_flat_iff_zero_squares(image: LumaView)
    ensures
        normalized(image).sum_squares == 0 <==> image.is_flat(),
{
    let pixels = image.pixels;
    let n = pixels.len() as int;
    let values = deviations(pixels);
    lemma_zero_square_sum(values);
    if image.is_flat() {
        if n > 0 {
            let c = pixels[0];
            lemma_constant_sum(pixels, c);
            assert forall|i: int| 0 <= i < values.len() implies values[i] == 0 by {
                assert(pixels[i] == c);
            }
        }
    }
    if square_sum(values) == 0 {
        assert forall|i: int, j: int| 0 <= i < n && 0 <= j < n implies pixels[i] == pixels[j] by {
            assert(values[i] == 0);
            assert(values[j] == 0);
            let a = pixels[i] as int;
            let b = pixels[j] as int;
            assert(a == b) by (nonlinear_arith)
                requires
                    n * a == n * b,
                    n > 0,
            ;
        }
    }
}

} // verus!
