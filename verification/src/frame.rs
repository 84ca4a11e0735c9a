//! Frame buffers: an immutable snapshot of pixel data with explicit
//! width, height, pixel format and a row-major, possibly padded stride.
//!
//! The invariant every library function preserves: the buffer holds at
//! least `stride * height` bytes, and a row holds at least
//! `width * bytes_per_pixel` of payload. Every conversion or filter
//! stage produces a frame satisfying [`Frame::wf`].

use vstd::prelude::*;
use vstd::arithmetic::div_mod::{
    lemma_fundamental_div_mod, lemma_fundamental_div_mod_converse_div,
    lemma_fundamental_div_mod_converse_mod, lemma_mod_bound,
};

verus! {

/// The pixel layouts the pipeline works with. Three-channel formats
/// store one byte per channel; `Gray8` stores a single luminance byte.
#[derive(Clone, Copy, PartialEq, Eq, Structural, Debug)]
pub enum PixelFormat {
    /// Red, green, blue channel order.
    Rgb24,
    /// Blue, green, red channel order.
    Bgr24,
    /// Single-channel luminance.
    Gray8,
}

impl PixelFormat {
    /// Bytes each pixel of this format occupies.
    pub open spec fn spec_bytes_per_pixel(self) -> nat {
        match self {
            PixelFormat::Gray8 => 1,
            _ => 3,
        }
    }

    /// Executable counterpart of [`Self::spec_bytes_per_pixel`].
    pub fn bytes_per_pixel(self) -> (n: usize)
        ensures
            n == self.spec_bytes_per_pixel(),
    {
        match self {
            PixelFormat::Gray8 => 1,
            _ => 3,
        }
    }
}

/// The errors a frame operation can report. A mismatch between a
/// caller-supplied output frame and the required format or size is a
/// contract violation, reported as a typed error rather than a panic.
#[derive(Clone, Copy, PartialEq, Eq, Structural, Debug)]
pub enum FrameError {
    /// The supplied output frame does not have the required format,
    /// width, or height.
    FormatMismatch,
}

/// One decoded or derived image: a row-major byte buffer plus the
/// metadata needed to address it.
#[derive(Clone, Debug)]
pub struct Frame {
    /// Width in pixels.
    pub width: usize,
    /// Height in pixels.
    pub height: usize,
    /// Bytes from the start of one row to the start of the next;
    /// at least `width * bytes_per_pixel`.
    pub stride: usize,
    /// Layout of each pixel.
    pub format: PixelFormat,
    /// The pixel bytes, at least `stride * height` of them.
    pub data: Vec<u8>,
}

impl Frame {
    /// Well-formedness: rows fit inside the stride and the buffer holds
    /// every row.
    pub open spec fn wf(self) -> bool {
        &&& self.stride >= self.width * self.format.spec_bytes_per_pixel()
        &&& self.data@.len() >= self.stride * self.height
    }

    /// The byte of channel `c` of the pixel at `(x, y)`.
    pub open spec fn at(self, x: int, y: int, c: int) -> u8 {
        self.data@[y * self.stride + x * self.format.spec_bytes_per_pixel() + c]
    }

    /// The pixels of a single-channel frame as one flat sequence of
    /// length `width * height`, in row-major order, padding stripped.
    pub open spec fn gray_grid(self) -> Seq<u8> {
        Seq::new(
            (self.width * self.height) as nat,
            |i: int| self.data@[(i / (self.width as int)) * self.stride + (i % (self.width as int))],
        )
    }

    /// Two frames agree on format and size (stride may differ).
    pub open spec fn same_shape(self, other: Frame) -> bool {
        &&& self.format == other.format
        &&& self.width == other.width
        &&& self.height == other.height
    }

    /// A zero-filled frame with a tight stride.
    pub fn new_zeroed(width: usize, height: usize, format: PixelFormat) -> (frame: Frame)
        requires
            width * format.spec_bytes_per_pixel() <= usize::MAX,
            width * format.spec_bytes_per_pixel() * height <= usize::MAX,
        ensures
            frame.wf(),
            frame.width == width,
            frame.height == height,
            frame.format == format,
            frame.stride == width * format.spec_bytes_per_pixel(),
            frame.data@.len() == frame.stride * height,
            forall|i: int| 0 <= i < frame.data@.len() ==> frame.data@[i] == 0u8,
    {
        let bpp = format.bytes_per_pixel();
        let stride = width * bpp;
        proof {
            assert(stride * height == width * format.spec_bytes_per_pixel() * height);
        }
        let n = stride * height;
        let mut data: Vec<u8> = Vec::new();
        while data.len() < n
            invariant
                data@.len() <= n,
                forall|i: int| 0 <= i < data@.len() ==> data@[i] == 0u8,
            decreases n - data@.len(),
        {
            data.push(0u8);
        }
        Frame { width, height, stride, format, data }
    }

    /// Wraps raw bytes as a frame, if the claimed geometry fits them.
    pub fn from_data(
        width: usize,
        height: usize,
        stride: usize,
        format: PixelFormat,
        data: Vec<u8>,
    ) -> (result: Result<Frame, FrameError>)
        requires
            width * format.spec_bytes_per_pixel() <= usize::MAX,
            stride * height <= usize::MAX,
        ensures
            match result {
                Ok(frame) => {
                    &&& frame.wf()
                    &&& frame.width == width
                    &&& frame.height == height
                    &&& frame.stride == stride
                    &&& frame.format == format
                    &&& frame.data@ == data@
                    &&& stride >= width * format.spec_bytes_per_pixel()
                    &&& data@.len() >= stride * height
                },
                Err(e) => {
                    &&& e == FrameError::FormatMismatch
                    &&& (stride < width * format.spec_bytes_per_pixel() || data@.len() < stride
                        * height)
                },
            },
    {
        let bpp = format.bytes_per_pixel();
        if stride < width * bpp {
            return Err(FrameError::FormatMismatch);
        }
        if data.len() < stride * height {
            return Err(FrameError::FormatMismatch);
        }
        Ok(Frame { width, height, stride, format, data })
    }

    /// Reads the single channel of a `Gray8` frame at `(x, y)`.
    pub fn gray(&self, x: usize, y: usize) -> (v: u8)
        requires
            self.wf(),
            self.format == PixelFormat::Gray8,
            x < self.width,
            y < self.height,
        ensures
            v == self.gray_grid()[y * self.width + x],
            v == self.at(x as int, y as int, 0),
    {
        proof {
            lemma_row_major_bounds(
                self.width as int,
                self.height as int,
                self.stride as int,
                1,
                x as int,
                y as int,
                0,
            );
            lemma_grid_entry(*self, x as int, y as int);
        }
        // Reading the length bounds the buffer within `usize` range.
        let _len = self.data.len();
        self.data[y * self.stride + x]
    }

    /// Reads channel `c` of a three-channel frame at `(x, y)`.
    pub fn channel(&self, x: usize, y: usize, c: usize) -> (v: u8)
        requires
            self.wf(),
            self.format.spec_bytes_per_pixel() == 3,
            x < self.width,
            y < self.height,
            c < 3,
        ensures
            v == self.at(x as int, y as int, c as int),
    {
        proof {
            lemma_row_major_bounds(
                self.width as int,
                self.height as int,
                self.stride as int,
                3,
                x as int,
                y as int,
                c as int,
            );
        }
        // Reading the length bounds the buffer within `usize` range.
        let _len = self.data.len();
        self.data[y * self.stride + x * 3 + c]
    }
}

/// In a row-major buffer with `stride >= w * bpp`, the offset of
/// channel `c` of pixel `(x, y)` lies strictly below `stride * h`.
pub proof fn lemma_row_major_bounds(
    w: int,
    h: int,
    stride: int,
    bpp: int,
    x: int,
    y: int,
    c: int,
)
    requires
        0 <= x < w,
        0 <= y < h,
        0 <= c < bpp,
        stride >= w * bpp,
        bpp >= 1,
    ensures
        0 <= y * stride + x * bpp + c,
        y * stride + x * bpp + c < stride * h,
{
    assert(y * stride + x * bpp + c < stride * h) by (nonlinear_arith)
        requires
            0 <= x < w,
            0 <= y < h,
            0 <= c < bpp,
            stride >= w * bpp,
            bpp >= 1,
    ;
    assert(y * stride + x * bpp + c >= 0) by (nonlinear_arith)
        requires
            0 <= x < w,
            0 <= y,
            0 <= c,
            stride >= w * bpp,
            bpp >= 1,
    ;
}

/// In a three-channel frame whose stride is exactly `3 * width`,
/// channel `c` of pixel `(x, y)` sits at flat offset
/// `3 * (y * width + x) + c`.
pub proof fn lemma_tight_at3(f: Frame, x: int, y: int, c: int)
    requires
        f.wf(),
        f.format.spec_bytes_per_pixel() == 3,
        f.stride == 3 * f.width,
        0 <= x < f.width,
        0 <= y < f.height,
        0 <= c < 3,
    ensures
        f.at(x, y, c) == f.data@[3 * (y * f.width + x) + c],
        0 <= 3 * (y * f.width + x) + c < f.data@.len(),
{
    lemma_row_major_bounds(
        f.width as int,
        f.height as int,
        f.stride as int,
        3,
        x,
        y,
        c,
    );
    assert(y * (3 * (f.width as int)) == 3 * (y * (f.width as int))) by (nonlinear_arith);
}

/// Splitting a flat row-major index `j` into its row `j / w` and
/// column `j % w`.
pub proof fn lemma_flat_index(w: int, h: int, j: int)
    requires
        w >= 0,
        h >= 0,
        0 <= j < w * h,
    ensures
        w > 0,
        h > 0,
        0 <= j / w < h,
        0 <= j % w < w,
        j == (j / w) * w + (j % w),
{
    assert(w > 0 && h > 0) by (nonlinear_arith)
        requires
            w >= 0,
            h >= 0,
            0 <= j < w * h,
    ;
    lemma_fundamental_div_mod(j, w);
    lemma_mod_bound(j, w);
    assert((j / w) * w == w * (j / w)) by (nonlinear_arith);
    assert(0 <= j / w < h) by (nonlinear_arith)
        requires
            j == w * (j / w) + (j % w),
            0 <= j % w < w,
            0 <= j < w * h,
            w > 0,
            h > 0,
    ;
}

/// Composing a row `y` and column `x` into the flat row-major index
/// `y * w + x`.
pub proof fn lemma_cell_index(w: int, h: int, x: int, y: int)
    requires
        0 <= x < w,
        0 <= y < h,
    ensures
        0 <= y * w + x < w * h,
        (y * w + x) / w == y,
        (y * w + x) % w == x,
{
    assert(0 <= y * w + x < w * h) by (nonlinear_arith)
        requires
            0 <= x < w,
            0 <= y < h,
    ;
    lemma_fundamental_div_mod_converse_div(y * w + x, w, y, x);
    lemma_fundamental_div_mod_converse_mod(y * w + x, w, y, x);
}

/// In a frame whose stride is exactly its width, the flat grid is the
/// data buffer itself, entry for entry.
pub proof fn lemma_tight_grid(f: Frame)
    requires
        f.wf(),
        f.format == PixelFormat::Gray8,
        f.stride == f.width,
    ensures
        forall|j: int|
            0 <= j < f.width * f.height ==> f.gray_grid()[j] == f.data@[j],
{
    assert forall|j: int| 0 <= j < f.width * f.height implies f.gray_grid()[j]
        == f.data@[j] by {
        lemma_flat_index(f.width as int, f.height as int, j);
    }
}

/// The flat grid of a single-channel frame indexes the underlying
/// buffer at `y * stride + x`.
pub proof fn lemma_grid_entry(frame: Frame, x: int, y: int)
    requires
        frame.width >= 1,
        0 <= x < frame.width,
        0 <= y < frame.height,
    ensures
        y * frame.width + x < frame.gray_grid().len(),
        frame.gray_grid()[y * frame.width + x] == frame.data@[y * frame.stride + x],
{
    let w = frame.width as int;
    let i = y * w + x;
    assert(i < w * frame.height && i >= 0) by (nonlinear_arith)
        requires
            0 <= x < w,
            0 <= y < frame.height,
            i == y * w + x,
    ;
    lemma_fundamental_div_mod_converse_div(i, w, y, x);
    lemma_fundamental_div_mod_converse_mod(i, w, y, x);
}

} // verus!
