//! Image convolution over flat RGBA byte buffers.
//!
//! An [`Image`] is a row-major grid of 4-channel (R, G, B, A) 8-bit pixels
//! with explicit pixel width and height. A [`Filter`] is a small matrix of
//! rational weights, stored as integer numerators over one shared positive
//! divisor, so that kernels such as an averaging filter (all weights `1/9`)
//! are represented exactly. The padding strategies in [`padding`] grow an
//! image with opaque black border pixels, and [`conv`] applies a filter to a
//! (possibly padded) image with a configurable stride.

use vstd::prelude::*;

pub mod conv;
pub mod padding;

verus! {

/// An error surfaced by filter construction or by the convolution engine.
#[derive(Clone, Copy, Debug, PartialEq, Eq, Structural)]
pub enum ConvError {
    /// The supplied weight count does not match the declared width x height.
    InvalidFilterShape,
    /// The stride is zero.
    InvalidStride,
    /// A kernel weight was addressed out of bounds during traversal.
    FilterIndexOutOfRange,
}

/// The border-extension strategies understood by the convolution entry
/// point: no padding at all, or a uniform border on all four sides.
///
/// The directional strategies (left, right, top, bottom) are standalone
/// transforms in [`padding`] and do not participate here.
#[derive(Clone, Copy, Debug, PartialEq, Eq, Structural)]
pub enum PaddingType {
    /// A border of the given thickness, in pixels, on all four sides.
    UNIFORM(u32),
    /// No border; the image is convolved as it is.
    NONE,
}

/// A raster image: a flat, row-major RGBA8 byte buffer together with its
/// pixel width and height.
#[derive(Debug)]
pub struct Image {
    /// Width in pixels.
    pub width: u32,
    /// Height in pixels.
    pub height: u32,
    /// Row-major RGBA bytes; 4 bytes per pixel.
    pub data: Vec<u8>,
}

impl Image {
    /// The buffer holds exactly 4 bytes for each of the `width * height` pixels.
    pub open spec fn wf(&self) -> bool {
        self.data@.len() == self.width * self.height * 4
    }

    /// Byte of channel `k` (0 = R, 1 = G, 2 = B, 3 = A) of the pixel in row
    /// `r`, column `c`.
    pub open spec fn chan(&self, r: int, c: int, k: int) -> u8 {
        self.data@[(r * self.width + c) * 4 + k]
    }

    /// Packages a raw RGBA byte buffer with its pixel dimensions.
    pub fn new(raw_pixels: Vec<u8>, width: u32, height: u32) -> (img: Image)
        requires
            raw_pixels@.len() == width * height * 4,
        ensures
            img.width == width,
            img.height == height,
            img.data@ == raw_pixels@,
            img.wf(),
    {
        Image { width, height, data: raw_pixels }
    }
}

/// Every channel of a pixel at row `r`, column `c` of a `w` x `h` grid has
/// its byte inside the grid's buffer.
pub proof fn lemma_grid_index_bounds(w: int, h: int, r: int, c: int)
    requires
        0 <= r < h,
        0 <= c < w,
    ensures
        0 <= r * w + c,
        (r * w + c) * 4 + 3 < w * h * 4,
{
    assert(0 <= r * w + c && (r * w + c) * 4 + 3 < w * h * 4) by (nonlinear_arith)
        requires
            0 <= r < h,
            0 <= c < w,
    ;
}

/// Row-major order: a pixel on an earlier row, or further left on the same
/// row, has a smaller flat index.
pub proof fn lemma_row_major_lt(w: int, r1: int, c1: int, r2: int, c2: int)
    requires
        0 <= r1,
        0 <= c1 < w,
        0 <= c2,
        r1 < r2 || (r1 == r2 && c1 < c2),
    ensures
        r1 * w + c1 < r2 * w + c2,
{
    assert(r1 * w + c1 < r2 * w + c2) by (nonlinear_arith)
        requires
            0 <= r1,
            0 <= c1 < w,
            0 <= c2,
            r1 < r2 || (r1 == r2 && c1 < c2),
    ;
}

/// Recovers row, column and channel from the flat byte index
/// `(r * wp + c) * 4 + k` of a grid of width `wp`.
pub proof fn lemma_pixel_index_decompose(wp: int, r: int, c: int, k: int)
    requires
        0 <= r,
        0 <= c < wp,
        0 <= k < 4,
    ensures
        0 <= r * wp + c,
        ((r * wp + c) * 4 + k) / 4 == r * wp + c,
        ((r * wp + c) * 4 + k) % 4 == k,
        (r * wp + c) / wp == r,
        (r * wp + c) % wp == c,
{
    vstd::arithmetic::mul::lemma_mul_nonnegative(r, wp);
    vstd::arithmetic::div_mod::lemma_fundamental_div_mod_converse(
        (r * wp + c) * 4 + k,
        4,
        r * wp + c,
        k,
    );
    vstd::arithmetic::div_mod::lemma_fundamental_div_mod_converse(r * wp + c, wp, r, c);
}

/// A convolution kernel: a `width` x `height` matrix of rational weights.
///
/// The weight at matrix position `(x, y)` is `kernel[x * width + y] /
/// divisor`; the whole matrix shares one positive divisor. Integer kernels
/// (Sobel, Laplacian) use divisor 1; fractional kernels (averaging,
/// Gaussian) carry their usual normalization constant as the divisor.
#[derive(Debug)]
pub struct Filter {
    width: usize,
    height: usize,
    kernel: Vec<i32>,
    divisor: u32,
}

impl Filter {
    /// Width of the kernel matrix.
    pub closed spec fn spec_width(&self) -> usize {
        self.width
    }

    /// Height of the kernel matrix.
    pub closed spec fn spec_height(&self) -> usize {
        self.height
    }

    /// The weight numerators, in storage order.
    pub closed spec fn spec_kernel(&self) -> Seq<i32> {
        self.kernel@
    }

    /// The divisor shared by all weights.
    pub closed spec fn spec_divisor(&self) -> u32 {
        self.divisor
    }

    /// The kernel holds exactly one numerator per matrix cell, and the
    /// shared divisor is positive.
    pub open spec fn wf(&self) -> bool {
        &&& self.spec_kernel().len() == self.spec_width() * self.spec_height()
        &&& self.spec_divisor() >= 1
    }

    /// Initializes and returns a new zero-filled Filter of the given shape.
    pub fn new(width: usize, height: usize) -> (f: Filter)
        requires
            width * height <= usize::MAX,
        ensures
            f.spec_width() == width,
            f.spec_height() == height,
            f.spec_divisor() == 1,
            f.spec_kernel().len() == width * height,
            forall|j: int| 0 <= j < width * height ==> f.spec_kernel()[j] == 0i32,
            f.wf(),
    {
        let count: usize = width * height;
        let mut kernel: Vec<i32> = Vec::new();
        let mut i: usize = 0;
        while i < count
            invariant
                i <= count,
                kernel@.len() == i,
                forall|j: int| 0 <= j < i ==> kernel@[j] == 0i32,
            decreases count - i,
        {
            kernel.push(0);
            i = i + 1;
        }
        Filter { width, height, kernel, divisor: 1 }
    }

    /// Creates a Filter from a vector of weight numerators, succeeding
    /// exactly when the weight count matches the declared shape. The
    /// divisor is 1, so the numerators are the weights themselves.
    pub fn from(kernel_buffer: Vec<i32>, width: usize, height: usize) -> (r: Result<Filter, ConvError>)
        ensures
            width * height == kernel_buffer@.len() ==> (r matches Ok(f) && {
                &&& f.spec_width() == width
                &&& f.spec_height() == height
                &&& f.spec_kernel() == kernel_buffer@
                &&& f.spec_divisor() == 1
                &&& f.wf()
            }),
            width * height != kernel_buffer@.len()
                ==> r == Err::<Filter, ConvError>(ConvError::InvalidFilterShape),
    {
        Filter::from_scaled(kernel_buffer, width, height, 1)
    }

    /// Creates a Filter whose weights are the given numerators over one
    /// shared divisor, succeeding exactly when the numerator count matches
    /// the declared shape.
    pub fn from_scaled(kernel_buffer: Vec<i32>, width: usize, height: usize, divisor: u32) -> (r: Result<
        Filter,
        ConvError,
    >)
        requires
            divisor >= 1,
        ensures
            width * height == kernel_buffer@.len() ==> (r matches Ok(f) && {
                &&& f.spec_width() == width
                &&& f.spec_height() == height
                &&& f.spec_kernel() == kernel_buffer@
                &&& f.spec_divisor() == divisor
                &&& f.wf()
            }),
            width * height != kernel_buffer@.len()
                ==> r == Err::<Filter, ConvError>(ConvError::InvalidFilterShape),
    {
        let kernel_size: usize = kernel_buffer.len();
        match width.checked_mul(height) {
            Some(count) => {
                if count == kernel_size {
                    Ok(Filter { width, height, kernel: kernel_buffer, divisor })
                } else {
                    Err(ConvError::InvalidFilterShape)
                }
            },
            None => Err(ConvError::InvalidFilterShape),
        }
    }

    /// Getter for the Filter's width.
    pub fn width(&self) -> (w: usize)
        ensures
            w == self.spec_width(),
    {
        self.width
    }

    /// Getter for the Filter's height.
    pub fn height(&self) -> (h: usize)
        ensures
            h == self.spec_height(),
    {
        self.height
    }

    /// Getter for the Filter's shared weight divisor.
    pub fn divisor(&self) -> (d: u32)
        ensures
            d == self.spec_divisor(),
    {
        self.divisor
    }

    /// Returns a copy of the weight numerators; the copy does not alias the
    /// Filter's own storage.
    pub fn kernel(&self) -> (k: Vec<i32>)
        ensures
            k@ == self.spec_kernel(),
    {
        let mut out: Vec<i32> = Vec::new();
        let mut i: usize = 0;
        while i < self.kernel.len()
            invariant
                i <= self.kernel@.len(),
                out@.len() == i,
                forall|j: int| 0 <= j < i ==> out@[j] == self.kernel@[j],
            decreases self.kernel@.len() - i,
        {
            out.push(self.kernel[i]);
            i = i + 1;
        }
        proof {
            assert(out@ =~= self.spec_kernel());
        }
        out
    }

    /// Returns the weight numerator at `(x, y)`, which lives at kernel
    /// position `x * width + y`, or `None` if that position is out of range.
    pub fn get_element(&self, x: usize, y: usize) -> (r: Option<i32>)
        ensures
            self.spec_kernel().len() > 0 && x * self.spec_width() + y < self.spec_kernel().len()
                ==> r == Some(self.spec_kernel()[x * self.spec_width() + y]),
            self.spec_kernel().len() == 0 || x * self.spec_width() + y >= self.spec_kernel().len()
                ==> r is None,
    {
        let kernel_len: usize = self.kernel.len();
        match x.checked_mul(self.width) {
            Some(xw) => match xw.checked_add(y) {
                Some(element_pos) => {
                    if kernel_len == 0 || element_pos >= kernel_len {
                        None
                    } else {
                        Some(self.kernel[element_pos])
                    }
                },
                None => None,
            },
            None => None,
        }
    }

    /// Sets the weight numerator at position `(x, y)`; out-of-range
    /// positions are reported as an error and leave the Filter unchanged.
    pub fn set_value_at_pos(&mut self, val: i32, position: (usize, usize)) -> (r: Result<(), ConvError>)
        ensures
            old(self).spec_kernel().len() > 0 && position.0 * old(self).spec_width() + position.1 < old(
                self,
            ).spec_kernel().len() ==> {
                &&& r == Ok::<(), ConvError>(())
                &&& final(self).spec_kernel() == old(self).spec_kernel().update(
                    position.0 * old(self).spec_width() + position.1,
                    val,
                )
                &&& final(self).spec_width() == old(self).spec_width()
                &&& final(self).spec_height() == old(self).spec_height()
                &&& final(self).spec_divisor() == old(self).spec_divisor()
            },
            old(self).spec_kernel().len() == 0 || position.0 * old(self).spec_width() + position.1
                >= old(self).spec_kernel().len() ==> {
                &&& r == Err::<(), ConvError>(ConvError::FilterIndexOutOfRange)
                &&& *final(self) == *old(self)
            },
    {
        let kernel_len: usize = self.kernel.len();
        match position.0.checked_mul(self.width) {
            Some(xw) => match xw.checked_add(position.1) {
                Some(element_pos) => {
                    if kernel_len == 0 || element_pos >= kernel_len {
                        Err(ConvError::FilterIndexOutOfRange)
                    } else {
                        self.kernel[element_pos] = val;
                        Ok(())
                    }
                },
                None => Err(ConvError::FilterIndexOutOfRange),
            },
            None => Err(ConvError::FilterIndexOutOfRange),
        }
    }
}

} // verus!
