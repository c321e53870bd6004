//! Luminance grids: the pixel data that matching works on, and the calls into
//! the `image` crate that produce it.

use image::DynamicImage;
use vstd::prelude::*;

verus! {

/// The largest number of pixels that a [`LumaImage`] holds: 2^28.
///
/// The bound holds of every grid, also of a source that is reduced before it
/// is searched: the sums over a normalized grid then fit 128 bits, and the
/// buffer of four floating-point channels per pixel through which a grid is
/// resampled stays far below what a vector of a 64-bit machine holds.
pub const MAX_PIXELS: usize = 268_435_456;

/// `image::DynamicImage`: a decoded image in whatever pixel format it came.
/// Matching reads its size and its luminance, through the functions below.
#[verifier::external_type_specification]
#[verifier::external_body]
pub struct ExDynamicImage(image::DynamicImage);

/// The width of a decoded image, in pixels.
pub uninterp spec fn frame_width(img: DynamicImage) -> nat;

/// The height of a decoded image, in pixels.
pub uninterp spec fn frame_height(img: DynamicImage) -> nat;

/// The 8-bit luminance of each pixel of a decoded image, row by row.
pub uninterp spec fn frame_luma(img: DynamicImage) -> Seq<u8>;

/// What nearest-neighbour resampling makes of a `width` x `height` luminance
/// grid when asked for `new_width` x `new_height` pixels.
pub uninterp spec fn nearest_resized(
    pixels: Seq<u8>,
    width: nat,
    height: nat,
    new_width: nat,
    new_height: nat,
) -> Seq<u8>;

/// `image::DynamicImage::width`: the width of the image that is held.
pub assume_specification[ image::DynamicImage::width ](img: &DynamicImage) -> (w: u32)
    ensures
        w == frame_width(*img),
;

/// `image::DynamicImage::height`: the height of the image that is held.
pub assume_specification[ image::DynamicImage::height ](img: &DynamicImage) -> (h: u32)
    ensures
        h == frame_height(*img),
;

/// `image::DynamicImage::to_luma8`: the image converted to 8-bit luminance.
/// The pixels are handed out row by row, one byte each, so there are as many
/// bytes as the image has pixels.
#[verifier::external_body]
fn luma_bytes(img: &DynamicImage) -> (bytes: Vec<u8>)
    ensures
        bytes@ == frame_luma(*img),
        bytes@.len() == frame_width(*img) * frame_height(*img),
{
    img.to_luma8().pixels().map(|p| p.0[0]).collect()
}

/// Why a luminance grid could not be built.
#[derive(Clone, Copy, Debug, PartialEq, Eq, Structural)]
pub enum LumaError {
    /// The number of bytes is not width times height.
    LengthMismatch,
    /// The grid would hold more than [`MAX_PIXELS`] pixels.
    TooLarge,
}

/// What a [`LumaImage`] stands for: its size and its pixels, row by row.
pub struct LumaView {
    pub width: nat,
    pub height: nat,
    pub pixels: Seq<u8>,
}

impl LumaView {
    /// There is one byte per pixel, and no more than [`MAX_PIXELS`] of them.
    pub open spec fn wf(self) -> bool {
        &&& self.pixels.len() == self.width * self.height
        &&& self.pixels.len() <= MAX_PIXELS
        &&& self.width <= u32::MAX
        &&& self.height <= u32::MAX
    }

    /// Whether every pixel has the same luminance.
    pub open spec fn is_flat(self) -> bool {
        forall|i: int, j: int|
            0 <= i < self.pixels.len() && 0 <= j < self.pixels.len() ==> self.pixels[i]
                == self.pixels[j]
    }
}

/// What a decoded image is to matching: its size and its luminance.
pub open spec fn frame_view(img: DynamicImage) -> LumaView {
    LumaView { width: frame_width(img), height: frame_height(img), pixels: frame_luma(img) }
}

/// A grid of 8-bit luminance values, stored row by row.
#[derive(Debug)]
pub struct LumaImage {
    width: u32,
    height: u32,
    data: Vec<u8>,
}

impl View for LumaImage {
    type V = LumaView;

    closed spec fn view(&self) -> LumaView {
        LumaView { width: self.width as nat, height: self.height as nat, pixels: self.data@ }
    }
}

impl LumaImage {
    /// There is one byte per pixel, and no more than [`MAX_PIXELS`] of them.
    pub open spec fn wf(&self) -> bool {
        self@.wf()
    }

    /// Builds a grid from its size and its pixels, row by row.
    pub fn new(width: u32, height: u32, data: Vec<u8>) -> (r: Result<LumaImage, LumaError>)
        ensures
            match r {
                Ok(img) => {
                    &&& img.wf()
                    &&& img@ == (LumaView { width: width as nat, height: height as nat, pixels: data@ })
                },
                Err(LumaError::LengthMismatch) => data@.len() != width * height,
                Err(LumaError::TooLarge) => data@.len() == width * height && width * height
                    > MAX_PIXELS,
            },
    {
        let area: u64 = grid_area(width, height);
        if data.len() as u64 != area {
            Err(LumaError::LengthMismatch)
        } else if area > MAX_PIXELS as u64 {
            Err(LumaError::TooLarge)
        } else {
            Ok(LumaImage { width, height, data })
        }
    }

    /// The luminance of a decoded image.
    pub fn from_frame(img: &DynamicImage) -> (r: Result<LumaImage, LumaError>)
        ensures
            match r {
                Ok(luma) => luma.wf() && luma@ == frame_view(*img),
                Err(e) => e == LumaError::TooLarge && frame_width(*img) * frame_height(*img)
                    > MAX_PIXELS,
            },
    {
        let width: u32 = img.width();
        let height: u32 = img.height();
        if grid_area(width, height) > MAX_PIXELS as u64 {
            return Err(LumaError::TooLarge);
        }
        let data = luma_bytes(img);
        Ok(LumaImage { width, height, data })
    }

    pub fn width(&self) -> (w: u32)
        ensures
            w == self@.width,
    {
        self.width
    }

    pub fn height(&self) -> (h: u32)
        ensures
            h == self@.height,
    {
        self.height
    }

    /// The pixels, row by row.
    pub fn pixels(&self) -> (p: &Vec<u8>)
        ensures
            p@ == self@.pixels,
    {
        &self.data
    }

    /// The luminance at column `x` of row `y`.
    pub fn pixel(&self, x: u32, y: u32) -> (p: u8)
        requires
            self.wf(),
            x < self@.width,
            y < self@.height,
        ensures
            p == self@.pixels[y * self@.width + x],
    {
        proof {
            lemma_cell_in_grid(x as int, y as int, self.width as int, self.height as int);
        }
        self.data[y as usize * self.width as usize + x as usize]
    }

    /// The grid resampled to `new_width` x `new_height` pixels, each taken
    /// from the nearest pixel of `self`.
    pub fn shrink(&self, new_width: u32, new_height: u32) -> (r: LumaImage)
        requires
            self.wf(),
            0 < new_width <= self@.width,
            0 < new_height <= self@.height,
        ensures
            r.wf(),
            r@ == (LumaView {
                width: new_width as nat,
                height: new_height as nat,
                pixels: nearest_resized(
                    self@.pixels,
                    self@.width,
                    self@.height,
                    new_width as nat,
                    new_height as nat,
                ),
            }),
    {
        let data = resize_nearest(&self.data, self.width, self.height, new_width, new_height);
        proof {
            lemma_area_monotone(
                new_width as int,
                new_height as int,
                self.width as int,
                self.height as int,
            );
        }
        LumaImage { width: new_width, height: new_height, data }
    }
}

/// `image::imageops::resize` with `FilterType::Nearest`, on a grid of 8-bit
/// luminance given by its bytes: the result has `new_width * new_height`
/// bytes, and is the same whenever the arguments are.
#[verifier::external_body]
fn resize_nearest(data: &Vec<u8>, width: u32, height: u32, new_width: u32, new_height: u32) -> (r:
    Vec<u8>)
    requires
        data@.len() == width * height,
        0 < new_width <= width,
        0 < new_height <= height,
    ensures
        r@ == nearest_resized(
            data@,
            width as nat,
            height as nat,
            new_width as nat,
            new_height as nat,
        ),
        r@.len() == new_width * new_height,
{
    let grid = image::GrayImage::from_raw(width, height, data.clone()).unwrap();
    image::imageops::resize(&grid, new_width, new_height, image::imageops::FilterType::Nearest)
        .into_raw()
}

/// The number of cells of a `width` x `height` grid.
pub fn grid_area(width: u32, height: u32) -> (area: u64)
    ensures
        area == width * height,
{
    assert(width * height <= 0xffff_ffff * 0xffff_ffff) by (nonlinear_arith)
        requires
            0 <= width <= 0xffff_ffff,
            0 <= height <= 0xffff_ffff,
    ;
    width as u64 * height as u64
}

/// A cell of a `width` x `height` grid has its index below `width * height`.
pub proof fn lemma_cell_in_grid(x: int, y: int, width: int, height: int)
    requires
        0 <= x < width,
        0 <= y < height,
    ensures
        0 <= y * width + x < width * height,
        y * width + x <= (height - 1) * width + (width - 1),
{
    assert(y * width <= (height - 1) * width) by (nonlinear_arith)
        requires
            0 <= y <= height - 1,
            0 <= width,
    ;
    assert((height - 1) * width + width == width * height) by (nonlinear_arith);
    assert(0 <= y * width) by (nonlinear_arith)
        requires
            0 <= y,
            0 <= width,
    ;
}

/// A grid that is no wider and no higher has no more cells.
pub proof fn lemma_area_monotone(w1: int, h1: int, w2: int, h2: int)
    requires
        0 <= w1 <= w2,
        0 <= h1 <= h2,
    ensures
        0 <= w1 * h1 <= w2 * h2,
{
    assert(0 <= w1 * h1 <= w2 * h2) by (nonlinear_arith)
        requires
            0 <= w1 <= w2,
            0 <= h1 <= h2,
    ;
}

} // verus!
