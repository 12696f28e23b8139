//! The in-memory frame the detector works on.
//!
//! Capture, decoding and colour conversion are outside collaborators; they
//! hand this library a plain row-major pixel buffer.  Only the luma channel
//! matters to detection.

use vstd::prelude::*;
use crate::geometry::FP_UNIT;
use crate::geometry::MAX_DIM;

verus! {

/// Luma values at or above this midpoint count as white (background); values
/// below count as dark (ink).
pub const LUMA_MID: u8 = 128;

/// One image sample in Y'CbCr form.
#[derive(Clone, Copy, Debug, PartialEq, Eq, Structural)]
pub struct Pixel {
    pub y: u8,
    pub cb: u8,
    pub cr: u8,
}

/// A frame held as a row-major pixel buffer.
#[derive(Clone, Debug)]
pub struct Image {
    pub width: usize,
    pub height: usize,
    pub data: Vec<Pixel>,
}

impl Image {
    /// The buffer matches the declared dimensions and the dimensions are
    /// within the range the library accepts.
    pub open spec fn wf(self) -> bool {
        &&& self.width <= MAX_DIM
        &&& self.height <= MAX_DIM
        &&& self.data@.len() == self.width * self.height
    }

    /// The pixel stored at a column and row.
    pub open spec fn spec_index(self, col: int, row: int) -> Pixel {
        self.data@[row * self.width + col]
    }

    /// The luma value stored at a column and row.
    pub open spec fn luma(self, col: int, row: int) -> int {
        self.spec_index(col, row).y as int
    }

    pub fn from_raw_parts(width: usize, height: usize, data: Vec<Pixel>) -> (img: Image)
        requires
            width <= MAX_DIM,
            height <= MAX_DIM,
            data@.len() == width * height,
        ensures
            img.width == width,
            img.height == height,
            img.data == data,
            img.wf(),
    {
        Image { width, height, data }
    }

    pub fn width(&self) -> (w: usize)
        ensures
            w == self.width,
    {
        self.width
    }

    pub fn height(&self) -> (h: usize)
        ensures
            h == self.height,
    {
        self.height
    }

    /// Whether a column/row index pair lies inside the frame.
    pub fn contains(&self, col: usize, row: usize) -> (r: bool)
        ensures
            r == (col < self.width && row < self.height),
    {
        col < self.width && row < self.height
    }

    pub fn index(&self, col: usize, row: usize) -> (px: Pixel)
        requires
            self.wf(),
            col < self.width,
            row < self.height,
        ensures
            px == self.spec_index(col as int, row as int),
    {
        let buf_len = self.data.len();
        proof {
            lemma_row_major_in_bounds(
                col as int,
                row as int,
                self.width as int,
                self.height as int,
            );
            assert(row * self.width + col < buf_len);
        }
        self.data[row * self.width + col]
    }

    /// Nearest pixel to a fixed-point position, clamped to the frame, as the
    /// capture subsystem's arbitrary-point sampler behaves.
    pub fn sample_point(&self, x_fp: i64, y_fp: i64) -> (px: Pixel)
        requires
            self.wf(),
            self.width >= 1,
            self.height >= 1,
        ensures
            px == self.spec_index(
                clamped_pixel(x_fp as int, self.width as int),
                clamped_pixel(y_fp as int, self.height as int),
            ),
    {
        let col = clamp_fp(x_fp, self.width);
        let row = clamp_fp(y_fp, self.height);
        self.index(col, row)
    }
}

/// The pixel index a fixed-point coordinate maps to: floor to whole pixels,
/// then clamp into `[0, extent)`.
pub open spec fn clamped_pixel(c_fp: int, extent: int) -> int {
    if c_fp < 0 {
        0
    } else if c_fp / (FP_UNIT as int) >= extent {
        extent - 1
    } else {
        c_fp / (FP_UNIT as int)
    }
}

fn clamp_fp(c_fp: i64, extent: usize) -> (r: usize)
    requires
        1 <= extent <= MAX_DIM,
    ensures
        r == clamped_pixel(c_fp as int, extent as int),
        r < extent,
{
    if c_fp < 0 {
        0
    } else {
        let whole = c_fp / FP_UNIT;
        proof {
            vstd::arithmetic::div_mod::lemma_div_nonincreasing(c_fp as int, FP_UNIT as int);
            vstd::arithmetic::div_mod::lemma_div_is_ordered_by_denominator(
                c_fp as int,
                1,
                FP_UNIT as int,
            );
        }
        if whole >= extent as i64 {
            extent - 1
        } else {
            whole as usize
        }
    }
}

/// A row-major index computed from in-bounds coordinates is in bounds.
proof fn lemma_row_major_in_bounds(col: int, row: int, width: int, height: int)
    by (nonlinear_arith)
    requires
        0 <= col < width,
        0 <= row < height,
    ensures
        0 <= row * width + col < width * height,
{
}

} // verus!
