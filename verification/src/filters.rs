//! The pixel filters of the analysis pipeline: luminance conversion,
//! box blur, binary thresholding and 3-by-3 rectangular morphology,
//! all on single-channel grids, plus the pixelation filter on
//! three-channel frames.
//!
//! Each filter's contract states the produced grid pixel for pixel;
//! spec-level counterparts (`luma_map`, `blur_map`, `threshold_map`,
//! `erode_iter`, `dilate_iter`) let later stages speak of a whole
//! pipeline as one composed function.

use vstd::prelude::*;
use crate::frame::{lemma_flat_index, lemma_tight_grid, Frame, PixelFormat};

verus! {

/// Index of the red channel in a three-channel format.
pub open spec fn red_channel(fmt: PixelFormat) -> int {
    match fmt {
        PixelFormat::Bgr24 => 2,
        _ => 0,
    }
}

/// Index of the blue channel in a three-channel format.
pub open spec fn blue_channel(fmt: PixelFormat) -> int {
    match fmt {
        PixelFormat::Bgr24 => 0,
        _ => 2,
    }
}

/// Integer luminance of one pixel: the weighted channel sum
/// `(299 r + 587 g + 114 b) / 1000`, the usual video luma weights in
/// thousandths.
pub open spec fn luma(r: u8, g: u8, b: u8) -> u8 {
    ((299 * r + 587 * g + 114 * b) / 1000) as u8
}

/// The luminance grid of a three-channel frame.
pub open spec fn luma_map(f: Frame) -> Seq<u8> {
    Seq::new(
        (f.width * f.height) as nat,
        |i: int|
            luma(
                f.at(i % (f.width as int), i / (f.width as int), red_channel(f.format)),
                f.at(i % (f.width as int), i / (f.width as int), 1),
                f.at(i % (f.width as int), i / (f.width as int), blue_channel(f.format)),
            ),
    )
}

/// Converts a three-channel frame to its single-channel luminance.
#[verifier::loop_isolation(false)]
pub fn to_gray(src: &Frame) -> (out: Frame)
    requires
        src.wf(),
        src.format.spec_bytes_per_pixel() == 3,
    ensures
        out.wf(),
        out.format == PixelFormat::Gray8,
        out.width == src.width,
        out.height == src.height,
        out.stride == out.width,
        out.data@.len() == out.width * out.height,
        out.gray_grid() == luma_map(*src),
{
    let w = src.width;
    let h = src.height;
    proof {
        lemma_grays_fit(*src);
    }
    // Reading the length bounds the buffer within `usize` range.
    let _len = src.data.len();
    let n = w * h;
    let mut data: Vec<u8> = Vec::new();
    let mut j: usize = 0;
    while j < n
        invariant
            j <= n,
            data@.len() == j,
            forall|i: int| 0 <= i < j ==> data@[i] == luma_map(*src)[i],
        decreases n - j,
    {
        proof {
            lemma_flat_index(w as int, h as int, j as int);
        }
        let x = j % w;
        let y = j / w;
        let rc: usize = match src.format {
            PixelFormat::Bgr24 => 2,
            _ => 0,
        };
        let bc: usize = 2 - rc;
        let r = src.channel(x, y, rc);
        let g = src.channel(x, y, 1);
        let b = src.channel(x, y, bc);
        let weighted: u32 = 299 * (r as u32) + 587 * (g as u32) + 114 * (b as u32);
        let v = (weighted / 1000) as u8;
        data.push(v);
        j += 1;
    }
    let out = Frame { width: w, height: h, stride: w, format: PixelFormat::Gray8, data };
    proof {
        assert(out.stride >= out.width * out.format.spec_bytes_per_pixel()) by {
            assert(out.format.spec_bytes_per_pixel() == 1);
        };
        lemma_tight_grid(out);
        assert(out.gray_grid() =~= luma_map(*src));
    }
    out
}

/// Binary threshold: `255` where the input is at least `t`, else `0`.
pub open spec fn threshold_map(g: Seq<u8>, t: u8) -> Seq<u8> {
    Seq::new(g.len(), |i: int| if g[i] >= t { 255u8 } else { 0u8 })
}

/// Thresholds a single-channel frame: pixels whose value reaches `t`
/// become `255`, all others `0`.
#[verifier::loop_isolation(false)]
pub fn threshold(src: &Frame, t: u8) -> (out: Frame)
    requires
        src.wf(),
        src.format == PixelFormat::Gray8,
    ensures
        out.wf(),
        out.format == PixelFormat::Gray8,
        out.width == src.width,
        out.height == src.height,
        out.stride == out.width,
        out.data@.len() == out.width * out.height,
        out.gray_grid() == threshold_map(src.gray_grid(), t),
{
    let w = src.width;
    let h = src.height;
    proof {
        lemma_grays_fit(*src);
    }
    // Reading the length bounds the buffer within `usize` range.
    let _len = src.data.len();
    let n = w * h;
    let mut data: Vec<u8> = Vec::new();
    let mut j: usize = 0;
    while j < n
        invariant
            j <= n,
            data@.len() == j,
            forall|i: int| 0 <= i < j ==> data@[i] == threshold_map(src.gray_grid(), t)[i],
        decreases n - j,
    {
        proof {
            lemma_flat_index(w as int, h as int, j as int);
        }
        let x = j % w;
        let y = j / w;
        let v = src.gray(x, y);
        let px = if v >= t {
            255u8
        } else {
            0u8
        };
        data.push(px);
        j += 1;
    }
    let out = Frame { width: w, height: h, stride: w, format: PixelFormat::Gray8, data };
    proof {
        lemma_tight_grid(out);
        assert(out.gray_grid() =~= threshold_map(src.gray_grid(), t));
    }
    out
}

/// Value of grid pixel `(x, y)`, or `default` outside the grid.
pub open spec fn sample(w: int, h: int, g: Seq<u8>, x: int, y: int, default: u8) -> u8 {
    if 0 <= x < w && 0 <= y < h {
        g[y * w + x]
    } else {
        default
    }
}

/// Smaller of two bytes.
pub open spec fn spec_min2(a: u8, b: u8) -> u8 {
    if a <= b {
        a
    } else {
        b
    }
}

/// Larger of two bytes.
pub open spec fn spec_max2(a: u8, b: u8) -> u8 {
    if a >= b {
        a
    } else {
        b
    }
}

/// Executable counterpart of [`spec_min2`].
pub fn min2(a: u8, b: u8) -> (r: u8)
    ensures
        r == spec_min2(a, b),
{
    if a <= b {
        a
    } else {
        b
    }
}

/// Executable counterpart of [`spec_max2`].
pub fn max2(a: u8, b: u8) -> (r: u8)
    ensures
        r == spec_max2(a, b),
{
    if a >= b {
        a
    } else {
        b
    }
}

/// Minimum over the 3-by-3 neighborhood of `(x, y)`; samples outside
/// the grid count as `255`, so the border is not eroded by the edge.
pub open spec fn window_min(w: int, h: int, g: Seq<u8>, x: int, y: int) -> u8 {
    spec_min2(
        spec_min2(
            spec_min2(sample(w, h, g, x - 1, y - 1, 255), sample(w, h, g, x, y - 1, 255)),
            spec_min2(sample(w, h, g, x + 1, y - 1, 255), sample(w, h, g, x - 1, y, 255)),
        ),
        spec_min2(
            spec_min2(sample(w, h, g, x, y, 255), sample(w, h, g, x + 1, y, 255)),
            spec_min2(
                spec_min2(sample(w, h, g, x - 1, y + 1, 255), sample(w, h, g, x, y + 1, 255)),
                sample(w, h, g, x + 1, y + 1, 255),
            ),
        ),
    )
}

/// Maximum over the 3-by-3 neighborhood of `(x, y)`; samples outside
/// the grid count as `0`, so the border contributes no foreground.
pub open spec fn window_max(w: int, h: int, g: Seq<u8>, x: int, y: int) -> u8 {
    spec_max2(
        spec_max2(
            spec_max2(sample(w, h, g, x - 1, y - 1, 0), sample(w, h, g, x, y - 1, 0)),
            spec_max2(sample(w, h, g, x + 1, y - 1, 0), sample(w, h, g, x - 1, y, 0)),
        ),
        spec_max2(
            spec_max2(sample(w, h, g, x, y, 0), sample(w, h, g, x + 1, y, 0)),
            spec_max2(
                spec_max2(sample(w, h, g, x - 1, y + 1, 0), sample(w, h, g, x, y + 1, 0)),
                sample(w, h, g, x + 1, y + 1, 0),
            ),
        ),
    )
}

/// One erosion pass with a 3-by-3 rectangular structuring element.
pub open spec fn erode_map(w: int, h: int, g: Seq<u8>) -> Seq<u8> {
    Seq::new((w * h) as nat, |i: int| window_min(w, h, g, i % w, i / w))
}

/// One dilation pass with a 3-by-3 rectangular structuring element.
pub open spec fn dilate_map(w: int, h: int, g: Seq<u8>) -> Seq<u8> {
    Seq::new((w * h) as nat, |i: int| window_max(w, h, g, i % w, i / w))
}

/// `n` erosion passes.
pub open spec fn erode_iter(w: int, h: int, g: Seq<u8>, n: nat) -> Seq<u8>
    decreases n,
{
    if n == 0 {
        g
    } else {
        erode_map(w, h, erode_iter(w, h, g, (n - 1) as nat))
    }
}

/// `n` dilation passes.
pub open spec fn dilate_iter(w: int, h: int, g: Seq<u8>, n: nat) -> Seq<u8>
    decreases n,
{
    if n == 0 {
        g
    } else {
        dilate_map(w, h, dilate_iter(w, h, g, (n - 1) as nat))
    }
}

/// Reads the neighbor of `(x, y)` at window offset `(dx, dy)` (each in
/// `0..3`, so the neighbor is `(x + dx - 1, y + dy - 1)`), or `default`
/// outside the frame.
fn sample3(f: &Frame, x: usize, y: usize, dx: usize, dy: usize, default: u8) -> (v: u8)
    requires
        f.wf(),
        f.format == PixelFormat::Gray8,
        x < f.width,
        y < f.height,
        dx < 3,
        dy < 3,
    ensures
        v == sample(
            f.width as int,
            f.height as int,
            f.gray_grid(),
            x + dx - 1,
            y + dy - 1,
            default,
        ),
{
    let w = f.width;
    let h = f.height;
    let xs: usize;
    let in_x: bool;
    if dx == 0 {
        if x >= 1 {
            xs = x - 1;
            in_x = true;
        } else {
            xs = 0;
            in_x = false;
        }
    } else {
        let c = x + (dx - 1);
        if c < w {
            xs = c;
            in_x = true;
        } else {
            xs = 0;
            in_x = false;
        }
    }
    let ys: usize;
    let in_y: bool;
    if dy == 0 {
        if y >= 1 {
            ys = y - 1;
            in_y = true;
        } else {
            ys = 0;
            in_y = false;
        }
    } else {
        let c = y + (dy - 1);
        if c < h {
            ys = c;
            in_y = true;
        } else {
            ys = 0;
            in_y = false;
        }
    }
    if in_x && in_y {
        f.gray(xs, ys)
    } else {
        default
    }
}

/// Erodes a single-channel frame once: a pixel keeps the minimum of
/// its 3-by-3 neighborhood, the border counting as `255`.
#[verifier::loop_isolation(false)]
pub fn erode(src: &Frame) -> (out: Frame)
    requires
        src.wf(),
        src.format == PixelFormat::Gray8,
    ensures
        out.wf(),
        out.format == PixelFormat::Gray8,
        out.width == src.width,
        out.height == src.height,
        out.stride == out.width,
        out.data@.len() == out.width * out.height,
        out.gray_grid() == erode_map(src.width as int, src.height as int, src.gray_grid()),
{
    let w = src.width;
    let h = src.height;
    proof {
        lemma_grays_fit(*src);
    }
    // Reading the length bounds the buffer within `usize` range.
    let _len = src.data.len();
    let n = w * h;
    let mut data: Vec<u8> = Vec::new();
    let mut j: usize = 0;
    while j < n
        invariant
            j <= n,
            data@.len() == j,
            forall|i: int|
                0 <= i < j ==> data@[i] == erode_map(w as int, h as int, src.gray_grid())[i],
        decreases n - j,
    {
        proof {
            lemma_flat_index(w as int, h as int, j as int);
        }
        let x = j % w;
        let y = j / w;
        let s00 = sample3(src, x, y, 0, 0, 255);
        let s10 = sample3(src, x, y, 1, 0, 255);
        let s20 = sample3(src, x, y, 2, 0, 255);
        let s01 = sample3(src, x, y, 0, 1, 255);
        let s11 = sample3(src, x, y, 1, 1, 255);
        let s21 = sample3(src, x, y, 2, 1, 255);
        let s02 = sample3(src, x, y, 0, 2, 255);
        let s12 = sample3(src, x, y, 1, 2, 255);
        let s22 = sample3(src, x, y, 2, 2, 255);
        let v = min2(
            min2(min2(s00, s10), min2(s20, s01)),
            min2(min2(s11, s21), min2(min2(s02, s12), s22)),
        );
        data.push(v);
        j += 1;
    }
    let out = Frame { width: w, height: h, stride: w, format: PixelFormat::Gray8, data };
    proof {
        assert(out.stride >= out.width * out.format.spec_bytes_per_pixel()) by {
            assert(out.format.spec_bytes_per_pixel() == 1);
        };
        lemma_tight_grid(out);
        assert(out.gray_grid() =~= erode_map(src.width as int, src.height as int, src.gray_grid()));
    }
    out
}

/// Dilates a single-channel frame once: a pixel keeps the maximum of
/// its 3-by-3 neighborhood, the border counting as `0`.
#[verifier::loop_isolation(false)]
pub fn dilate(src: &Frame) -> (out: Frame)
    requires
        src.wf(),
        src.format == PixelFormat::Gray8,
    ensures
        out.wf(),
        out.format == PixelFormat::Gray8,
        out.width == src.width,
        out.height == src.height,
        out.stride == out.width,
        out.data@.len() == out.width * out.height,
        out.gray_grid() == dilate_map(src.width as int, src.height as int, src.gray_grid()),
{
    let w = src.width;
    let h = src.height;
    proof {
        lemma_grays_fit(*src);
    }
    // Reading the length bounds the buffer within `usize` range.
    let _len = src.data.len();
    let n = w * h;
    let mut data: Vec<u8> = Vec::new();
    let mut j: usize = 0;
    while j < n
        invariant
            j <= n,
            data@.len() == j,
            forall|i: int|
                0 <= i < j ==> data@[i] == dilate_map(w as int, h as int, src.gray_grid())[i],
        decreases n - j,
    {
        proof {
            lemma_flat_index(w as int, h as int, j as int);
        }
        let x = j % w;
        let y = j / w;
        let s00 = sample3(src, x, y, 0, 0, 0);
        let s10 = sample3(src, x, y, 1, 0, 0);
        let s20 = sample3(src, x, y, 2, 0, 0);
        let s01 = sample3(src, x, y, 0, 1, 0);
        let s11 = sample3(src, x, y, 1, 1, 0);
        let s21 = sample3(src, x, y, 2, 1, 0);
        let s02 = sample3(src, x, y, 0, 2, 0);
        let s12 = sample3(src, x, y, 1, 2, 0);
        let s22 = sample3(src, x, y, 2, 2, 0);
        let v = max2(
            max2(max2(s00, s10), max2(s20, s01)),
            max2(max2(s11, s21), max2(max2(s02, s12), s22)),
        );
        data.push(v);
        j += 1;
    }
    let out = Frame { width: w, height: h, stride: w, format: PixelFormat::Gray8, data };
    proof {
        assert(out.stride >= out.width * out.format.spec_bytes_per_pixel()) by {
            assert(out.format.spec_bytes_per_pixel() == 1);
        };
        lemma_tight_grid(out);
        assert(out.gray_grid() =~= dilate_map(
            src.width as int,
            src.height as int,
            src.gray_grid(),
        ));
    }
    out
}

/// A fresh copy of a single-channel frame with a tight stride.
#[verifier::loop_isolation(false)]
pub fn copy_gray(src: &Frame) -> (out: Frame)
    requires
        src.wf(),
        src.format == PixelFormat::Gray8,
    ensures
        out.wf(),
        out.format == PixelFormat::Gray8,
        out.width == src.width,
        out.height == src.height,
        out.stride == out.width,
        out.data@.len() == out.width * out.height,
        out.gray_grid() == src.gray_grid(),
{
    let w = src.width;
    let h = src.height;
    proof {
        lemma_grays_fit(*src);
    }
    // Reading the length bounds the buffer within `usize` range.
    let _len = src.data.len();
    let n = w * h;
    let mut data: Vec<u8> = Vec::new();
    let mut j: usize = 0;
    while j < n
        invariant
            j <= n,
            data@.len() == j,
            forall|i: int| 0 <= i < j ==> data@[i] == src.gray_grid()[i],
        decreases n - j,
    {
        proof {
            lemma_flat_index(w as int, h as int, j as int);
        }
        let x = j % w;
        let y = j / w;
        let v = src.gray(x, y);
        data.push(v);
        j += 1;
    }
    let out = Frame { width: w, height: h, stride: w, format: PixelFormat::Gray8, data };
    proof {
        assert(out.stride >= out.width * out.format.spec_bytes_per_pixel()) by {
            assert(out.format.spec_bytes_per_pixel() == 1);
        };
        lemma_tight_grid(out);
        assert(out.gray_grid() =~= src.gray_grid());
    }
    out
}

/// Applies `iterations` erosion passes.
#[verifier::loop_isolation(false)]
pub fn erode_n(src: &Frame, iterations: usize) -> (out: Frame)
    requires
        src.wf(),
        src.format == PixelFormat::Gray8,
    ensures
        out.wf(),
        out.format == PixelFormat::Gray8,
        out.width == src.width,
        out.height == src.height,
        out.stride == out.width,
        out.data@.len() == out.width * out.height,
        out.gray_grid() == erode_iter(
            src.width as int,
            src.height as int,
            src.gray_grid(),
            iterations as nat,
        ),
{
    let mut cur = copy_gray(src);
    let mut it: usize = 0;
    while it < iterations
        invariant
            it <= iterations,
            cur.wf(),
            cur.format == PixelFormat::Gray8,
            cur.width == src.width,
            cur.height == src.height,
            cur.stride == cur.width,
            cur.data@.len() == cur.width * cur.height,
            cur.gray_grid() == erode_iter(
                src.width as int,
                src.height as int,
                src.gray_grid(),
                it as nat,
            ),
        decreases iterations - it,
    {
        cur = erode(&cur);
        it += 1;
    }
    cur
}

/// Applies `iterations` dilation passes.
#[verifier::loop_isolation(false)]
pub fn dilate_n(src: &Frame, iterations: usize) -> (out: Frame)
    requires
        src.wf(),
        src.format == PixelFormat::Gray8,
    ensures
        out.wf(),
        out.format == PixelFormat::Gray8,
        out.width == src.width,
        out.height == src.height,
        out.stride == out.width,
        out.data@.len() == out.width * out.height,
        out.gray_grid() == dilate_iter(
            src.width as int,
            src.height as int,
            src.gray_grid(),
            iterations as nat,
        ),
{
    let mut cur = copy_gray(src);
    let mut it: usize = 0;
    while it < iterations
        invariant
            it <= iterations,
            cur.wf(),
            cur.format == PixelFormat::Gray8,
            cur.width == src.width,
            cur.height == src.height,
            cur.stride == cur.width,
            cur.data@.len() == cur.width * cur.height,
            cur.gray_grid() == dilate_iter(
                src.width as int,
                src.height as int,
                src.gray_grid(),
                it as nat,
            ),
        decreases iterations - it,
    {
        cur = dilate(&cur);
        it += 1;
    }
    cur
}

/// Largest frame dimension the filters accept; keeps all pixel
/// arithmetic comfortably inside `usize` on every target.
pub const MAX_DIM: usize = 0x8000;

/// Sum of `len` consecutive samples of row `y` starting at column `x`;
/// samples outside the grid count as `0`.
pub open spec fn row_sum(w: int, h: int, g: Seq<u8>, x: int, y: int, len: nat) -> int
    decreases len,
{
    if len == 0 {
        0
    } else {
        row_sum(w, h, g, x, y, (len - 1) as nat) + sample(w, h, g, x + len - 1, y, 0)
    }
}

/// Sum over a `kw`-by-`kh` window whose top-left corner is `(x, y)`;
/// samples outside the grid count as `0`.
pub open spec fn window_sum(w: int, h: int, g: Seq<u8>, x: int, y: int, kw: nat, kh: nat) -> int
    decreases kh,
{
    if kh == 0 {
        0
    } else {
        window_sum(w, h, g, x, y, kw, (kh - 1) as nat) + row_sum(w, h, g, x, y + kh - 1, kw)
    }
}

/// A row sum of `len` bytes lies between `0` and `255 * len`.
pub proof fn lemma_row_sum_bounds(w: int, h: int, g: Seq<u8>, x: int, y: int, len: nat)
    ensures
        0 <= row_sum(w, h, g, x, y, len) <= 255 * len,
    decreases len,
{
    if len > 0 {
        lemma_row_sum_bounds(w, h, g, x, y, (len - 1) as nat);
    }
}

/// A window sum of `kw * kh` bytes lies between `0` and `255 * kw * kh`.
pub proof fn lemma_window_sum_bounds(
    w: int,
    h: int,
    g: Seq<u8>,
    x: int,
    y: int,
    kw: nat,
    kh: nat,
)
    ensures
        0 <= window_sum(w, h, g, x, y, kw, kh) <= 255 * kw * kh,
    decreases kh,
{
    if kh > 0 {
        lemma_window_sum_bounds(w, h, g, x, y, kw, (kh - 1) as nat);
        lemma_row_sum_bounds(w, h, g, x, y + kh - 1, kw);
        assert(255 * kw * ((kh - 1) as nat) + 255 * kw == 255 * kw * kh) by (nonlinear_arith)
            requires
                kh >= 1,
        ;
    }
}

/// Box blur with an odd kernel size `k`: each pixel becomes the
/// average of the `k`-by-`k` window centered on it, the constant
/// border counting as `0`.
pub open spec fn blur_map(w: int, h: int, g: Seq<u8>, k: nat) -> Seq<u8> {
    Seq::new(
        (w * h) as nat,
        |i: int|
            ((window_sum(w, h, g, i % w - k / 2, i / w - k / 2, k, k) / ((k * k) as int)) as u8),
    )
}

/// Reads the sample at `(x + dx - r, y + dy - r)`, or `0` outside the
/// frame.
fn sample_window(f: &Frame, x: usize, y: usize, dx: usize, dy: usize, r: usize) -> (v: u8)
    requires
        f.wf(),
        f.format == PixelFormat::Gray8,
        f.width <= MAX_DIM,
        f.height <= MAX_DIM,
        x < f.width,
        y < f.height,
        dx <= 255,
        dy <= 255,
    ensures
        v == sample(f.width as int, f.height as int, f.gray_grid(), x + dx - r, y + dy - r, 0),
{
    let tx = x + dx;
    let ty = y + dy;
    if tx >= r && ty >= r {
        let sx = tx - r;
        let sy = ty - r;
        if sx < f.width && sy < f.height {
            f.gray(sx, sy)
        } else {
            0
        }
    } else {
        0
    }
}

/// Blurs a single-channel frame with a `k`-by-`k` box kernel (odd
/// `k`), averaging over the window with a zero-valued constant border.
#[verifier::loop_isolation(false)]
pub fn blur(src: &Frame, k: usize) -> (out: Frame)
    requires
        src.wf(),
        src.format == PixelFormat::Gray8,
        src.width <= MAX_DIM,
        src.height <= MAX_DIM,
        1 <= k <= 255,
        k % 2 == 1,
    ensures
        out.wf(),
        out.format == PixelFormat::Gray8,
        out.width == src.width,
        out.height == src.height,
        out.stride == out.width,
        out.data@.len() == out.width * out.height,
        out.gray_grid() == blur_map(src.width as int, src.height as int, src.gray_grid(), k as nat),
{
    let w = src.width;
    let h = src.height;
    let ghost g = src.gray_grid();
    proof {
        lemma_grays_fit(*src);
    }
    // Reading the length bounds the buffer within `usize` range.
    let _len = src.data.len();
    let n = w * h;
    let r = k / 2;
    proof {
        assert(1 <= k * k <= 65025) by (nonlinear_arith)
            requires
                1 <= k <= 255,
        ;
    }
    let kk: u32 = (k * k) as u32;
    let mut data: Vec<u8> = Vec::new();
    let mut j: usize = 0;
    while j < n
        invariant
            j <= n,
            data@.len() == j,
            forall|i: int|
                0 <= i < j ==> data@[i] == blur_map(w as int, h as int, g, k as nat)[i],
        decreases n - j,
    {
        proof {
            lemma_flat_index(w as int, h as int, j as int);
        }
        let x = j % w;
        let y = j / w;
        let ghost x0 = x - r;
        let ghost y0 = y - r;
        let mut sum: u32 = 0;
        let mut dy: usize = 0;
        while dy < k
            invariant
                dy <= k,
                sum == window_sum(w as int, h as int, g, x0, y0, k as nat, dy as nat),
            decreases k - dy,
        {
            let mut rowacc: u32 = 0;
            let mut dx: usize = 0;
            while dx < k
                invariant
                    dx <= k,
                    rowacc == row_sum(w as int, h as int, g, x0, y0 + dy, dx as nat),
                decreases k - dx,
            {
                let v = sample_window(src, x, y, dx, dy, r);
                proof {
                    lemma_row_sum_bounds(w as int, h as int, g, x0, y0 + dy, dx as nat);
                }
                rowacc = rowacc + (v as u32);
                dx += 1;
            }
            proof {
                lemma_window_sum_bounds(w as int, h as int, g, x0, y0, k as nat, dy as nat);
                lemma_row_sum_bounds(w as int, h as int, g, x0, y0 + dy, k as nat);
                assert(255 * (k as int) * (dy as int) + 255 * (k as int) <= 255 * 255 * 255)
                    by (nonlinear_arith)
                    requires
                        1 <= k <= 255,
                        0 <= dy < k,
                ;
            }
            sum = sum + rowacc;
            dy += 1;
        }
        let px = (sum / kk) as u8;
        data.push(px);
        j += 1;
    }
    let out = Frame { width: w, height: h, stride: w, format: PixelFormat::Gray8, data };
    proof {
        assert(out.stride >= out.width * out.format.spec_bytes_per_pixel()) by {
            assert(out.format.spec_bytes_per_pixel() == 1);
        };
        lemma_tight_grid(out);
        assert(out.gray_grid() =~= blur_map(src.width as int, src.height as int, g, k as nat));
    }
    out
}

/// Reorders the channels of a three-channel frame into the layout of
/// `to`, keeping the color of every pixel: the red, green and blue
/// values are unchanged, only their position within the pixel moves.
#[verifier::loop_isolation(false)]
pub fn convert(src: &Frame, to: PixelFormat) -> (out: Frame)
    requires
        src.wf(),
        src.format.spec_bytes_per_pixel() == 3,
        to.spec_bytes_per_pixel() == 3,
        src.width <= MAX_DIM,
        src.height <= MAX_DIM,
    ensures
        out.wf(),
        out.format == to,
        out.width == src.width,
        out.height == src.height,
        out.stride == 3 * out.width,
        out.data@.len() == out.stride * out.height,
        forall|x: int, y: int|
            0 <= x < src.width && 0 <= y < src.height ==> #[trigger] out.at(x, y, red_channel(to))
                == src.at(x, y, red_channel(src.format)),
        forall|x: int, y: int|
            0 <= x < src.width && 0 <= y < src.height ==> #[trigger] out.at(x, y, 1) == src.at(
                x,
                y,
                1,
            ),
        forall|x: int, y: int|
            0 <= x < src.width && 0 <= y < src.height ==> #[trigger] out.at(x, y, blue_channel(to))
                == src.at(x, y, blue_channel(src.format)),
{
    let w = src.width;
    let h = src.height;
    proof {
        assert(w * h <= 0x8000 * 0x8000) by (nonlinear_arith)
            requires
                w <= 0x8000,
                h <= 0x8000,
        ;
    }
    let n = w * h;
    let stride = 3 * w;
    let swap = match (src.format, to) {
        (PixelFormat::Bgr24, PixelFormat::Bgr24) => false,
        (PixelFormat::Bgr24, _) => true,
        (_, PixelFormat::Bgr24) => true,
        _ => false,
    };
    let mut data: Vec<u8> = Vec::new();
    let mut p: usize = 0;
    while p < n
        invariant
            p <= n,
            data@.len() == 3 * p,
            forall|i: int|
                0 <= i < p ==> #[trigger] data@[3 * i + 1] == src.at(i % (w as int), i / (
                w as int), 1),
            forall|i: int|
                0 <= i < p ==> #[trigger] data@[3 * i + red_channel(to)] == src.at(
                    i % (w as int),
                    i / (w as int),
                    red_channel(src.format),
                ),
            forall|i: int|
                0 <= i < p ==> #[trigger] data@[3 * i + blue_channel(to)] == src.at(
                    i % (w as int),
                    i / (w as int),
                    blue_channel(src.format),
                ),
        decreases n - p,
    {
        proof {
            lemma_flat_index(w as int, h as int, p as int);
        }
        let x = p % w;
        let y = p / w;
        let c0 = src.channel(x, y, 0);
        let c1 = src.channel(x, y, 1);
        let c2 = src.channel(x, y, 2);
        if swap {
            data.push(c2);
            data.push(c1);
            data.push(c0);
        } else {
            data.push(c0);
            data.push(c1);
            data.push(c2);
        }
        p += 1;
    }
    let out = Frame { width: w, height: h, stride, format: to, data };
    proof {
        assert(out.data@.len() == out.stride * out.height) by (nonlinear_arith)
            requires
                out.data@.len() == 3 * (w * h),
                out.stride == 3 * w,
                out.height == h,
        ;
        assert forall|x: int, y: int|
            0 <= x < src.width && 0 <= y < src.height implies #[trigger] out.at(
            x,
            y,
            red_channel(to),
        ) == src.at(x, y, red_channel(src.format)) by {
            crate::frame::lemma_cell_index(w as int, h as int, x, y);
            crate::frame::lemma_tight_at3(out, x, y, red_channel(to));
        }
        assert forall|x: int, y: int|
            0 <= x < src.width && 0 <= y < src.height implies #[trigger] out.at(x, y, 1) == src.at(
            x,
            y,
            1,
        ) by {
            crate::frame::lemma_cell_index(w as int, h as int, x, y);
            crate::frame::lemma_tight_at3(out, x, y, 1);
        }
        assert forall|x: int, y: int|
            0 <= x < src.width && 0 <= y < src.height implies #[trigger] out.at(
            x,
            y,
            blue_channel(to),
        ) == src.at(x, y, blue_channel(src.format)) by {
            crate::frame::lemma_cell_index(w as int, h as int, x, y);
            crate::frame::lemma_tight_at3(out, x, y, blue_channel(to));
        }
    }
    out
}

/// Expands a single-channel frame to a three-channel frame of format
/// `to`, repeating the luminance value in every channel.
#[verifier::loop_isolation(false)]
pub fn expand_gray(src: &Frame, to: PixelFormat) -> (out: Frame)
    requires
        src.wf(),
        src.format == PixelFormat::Gray8,
        to.spec_bytes_per_pixel() == 3,
        src.width <= MAX_DIM,
        src.height <= MAX_DIM,
    ensures
        out.wf(),
        out.format == to,
        out.width == src.width,
        out.height == src.height,
        out.stride == 3 * out.width,
        out.data@.len() == out.stride * out.height,
        forall|x: int, y: int, c: int|
            0 <= x < src.width && 0 <= y < src.height && 0 <= c < 3 ==> #[trigger] out.at(x, y, c)
                == src.gray_grid()[y * src.width + x],
{
    let w = src.width;
    let h = src.height;
    proof {
        assert(w * h <= 0x8000 * 0x8000) by (nonlinear_arith)
            requires
                w <= 0x8000,
                h <= 0x8000,
        ;
    }
    let n = w * h;
    let stride = 3 * w;
    let mut data: Vec<u8> = Vec::new();
    let mut p: usize = 0;
    while p < n
        invariant
            p <= n,
            data@.len() == 3 * p,
            forall|i: int, c: int|
                0 <= i < p && 0 <= c < 3 ==> #[trigger] data@[3 * i + c] == src.gray_grid()[i],
        decreases n - p,
    {
        proof {
            lemma_flat_index(w as int, h as int, p as int);
        }
        let x = p % w;
        let y = p / w;
        let v = src.gray(x, y);
        data.push(v);
        data.push(v);
        data.push(v);
        p += 1;
    }
    let out = Frame { width: w, height: h, stride, format: to, data };
    proof {
        assert(out.data@.len() == out.stride * out.height) by (nonlinear_arith)
            requires
                out.data@.len() == 3 * (w * h),
                out.stride == 3 * w,
                out.height == h,
        ;
        assert forall|x: int, y: int, c: int|
            0 <= x < src.width && 0 <= y < src.height && 0 <= c < 3 implies #[trigger] out.at(
            x,
            y,
            c,
        ) == src.gray_grid()[y * src.width + x] by {
            crate::frame::lemma_cell_index(w as int, h as int, x, y);
            crate::frame::lemma_tight_at3(out, x, y, c);
        }
    }
    out
}

/// One channel of a three-channel frame as a flat grid.
pub open spec fn channel_map(f: Frame, c: int) -> Seq<u8> {
    Seq::new(
        (f.width * f.height) as nat,
        |i: int| f.at(i % (f.width as int), i / (f.width as int), c),
    )
}

/// Extracts channel `c` of a three-channel frame as a single-channel
/// frame.
#[verifier::loop_isolation(false)]
pub fn extract_channel(src: &Frame, c: usize) -> (out: Frame)
    requires
        src.wf(),
        src.format.spec_bytes_per_pixel() == 3,
        c < 3,
    ensures
        out.wf(),
        out.format == PixelFormat::Gray8,
        out.width == src.width,
        out.height == src.height,
        out.stride == out.width,
        out.data@.len() == out.width * out.height,
        out.gray_grid() == channel_map(*src, c as int),
{
    let w = src.width;
    let h = src.height;
    proof {
        lemma_grays_fit(*src);
    }
    // Reading the length bounds the buffer within `usize` range.
    let _len = src.data.len();
    let n = w * h;
    let mut data: Vec<u8> = Vec::new();
    let mut j: usize = 0;
    while j < n
        invariant
            j <= n,
            data@.len() == j,
            forall|i: int| 0 <= i < j ==> data@[i] == channel_map(*src, c as int)[i],
        decreases n - j,
    {
        proof {
            lemma_flat_index(w as int, h as int, j as int);
        }
        let x = j % w;
        let y = j / w;
        let v = src.channel(x, y, c);
        data.push(v);
        j += 1;
    }
    let out = Frame { width: w, height: h, stride: w, format: PixelFormat::Gray8, data };
    proof {
        assert(out.stride >= out.width * out.format.spec_bytes_per_pixel()) by {
            assert(out.format.spec_bytes_per_pixel() == 1);
        };
        lemma_tight_grid(out);
        assert(out.gray_grid() =~= channel_map(*src, c as int));
    }
    out
}

/// Recombines three single-channel frames of equal size into one
/// three-channel frame of format `fmt`, channel by channel.
#[verifier::loop_isolation(false)]
pub fn merge_channels(c0: &Frame, c1: &Frame, c2: &Frame, fmt: PixelFormat) -> (out: Frame)
    requires
        c0.wf(),
        c1.wf(),
        c2.wf(),
        c0.format == PixelFormat::Gray8,
        c1.format == PixelFormat::Gray8,
        c2.format == PixelFormat::Gray8,
        c1.width == c0.width && c1.height == c0.height,
        c2.width == c0.width && c2.height == c0.height,
        fmt.spec_bytes_per_pixel() == 3,
        c0.width <= MAX_DIM,
        c0.height <= MAX_DIM,
    ensures
        out.wf(),
        out.format == fmt,
        out.width == c0.width,
        out.height == c0.height,
        out.stride == 3 * out.width,
        out.data@.len() == out.stride * out.height,
        forall|x: int, y: int|
            0 <= x < c0.width && 0 <= y < c0.height ==> #[trigger] out.at(x, y, 0)
                == c0.gray_grid()[y * c0.width + x],
        forall|x: int, y: int|
            0 <= x < c0.width && 0 <= y < c0.height ==> #[trigger] out.at(x, y, 1)
                == c1.gray_grid()[y * c0.width + x],
        forall|x: int, y: int|
            0 <= x < c0.width && 0 <= y < c0.height ==> #[trigger] out.at(x, y, 2)
                == c2.gray_grid()[y * c0.width + x],
{
    let w = c0.width;
    let h = c0.height;
    proof {
        assert(w * h <= 0x8000 * 0x8000) by (nonlinear_arith)
            requires
                w <= 0x8000,
                h <= 0x8000,
        ;
    }
    let n = w * h;
    let stride = 3 * w;
    let mut data: Vec<u8> = Vec::new();
    let mut p: usize = 0;
    while p < n
        invariant
            p <= n,
            data@.len() == 3 * p,
            forall|i: int| 0 <= i < p ==> #[trigger] data@[3 * i] == c0.gray_grid()[i],
            forall|i: int| 0 <= i < p ==> #[trigger] data@[3 * i + 1] == c1.gray_grid()[i],
            forall|i: int| 0 <= i < p ==> #[trigger] data@[3 * i + 2] == c2.gray_grid()[i],
        decreases n - p,
    {
        proof {
            lemma_flat_index(w as int, h as int, p as int);
        }
        let x = p % w;
        let y = p / w;
        data.push(c0.gray(x, y));
        data.push(c1.gray(x, y));
        data.push(c2.gray(x, y));
        p += 1;
    }
    let out = Frame { width: w, height: h, stride, format: fmt, data };
    proof {
        assert(out.data@.len() == out.stride * out.height) by (nonlinear_arith)
            requires
                out.data@.len() == 3 * (w * h),
                out.stride == 3 * w,
                out.height == h,
        ;
        assert forall|x: int, y: int|
            0 <= x < c0.width && 0 <= y < c0.height implies #[trigger] out.at(x, y, 0)
            == c0.gray_grid()[y * (w as int) + x] by {
            crate::frame::lemma_cell_index(w as int, h as int, x, y);
            crate::frame::lemma_tight_at3(out, x, y, 0);
        }
        assert forall|x: int, y: int|
            0 <= x < c0.width && 0 <= y < c0.height implies #[trigger] out.at(x, y, 1)
            == c1.gray_grid()[y * (w as int) + x] by {
            crate::frame::lemma_cell_index(w as int, h as int, x, y);
            crate::frame::lemma_tight_at3(out, x, y, 1);
        }
        assert forall|x: int, y: int|
            0 <= x < c0.width && 0 <= y < c0.height implies #[trigger] out.at(x, y, 2)
            == c2.gray_grid()[y * (w as int) + x] by {
            crate::frame::lemma_cell_index(w as int, h as int, x, y);
            crate::frame::lemma_tight_at3(out, x, y, 2);
        }
    }
    out
}

/// Box-blurs a three-channel frame with a `k`-by-`k` kernel (odd
/// `k`), each channel independently, the constant zero border as in
/// the single-channel [`blur`].
pub fn blur_color(src: &Frame, k: usize) -> (out: Frame)
    requires
        src.wf(),
        src.format.spec_bytes_per_pixel() == 3,
        src.width <= MAX_DIM,
        src.height <= MAX_DIM,
        1 <= k <= 255,
        k % 2 == 1,
    ensures
        out.wf(),
        out.format == src.format,
        out.width == src.width,
        out.height == src.height,
        forall|x: int, y: int, c: int|
            0 <= x < src.width && 0 <= y < src.height && 0 <= c < 3 ==> #[trigger] out.at(x, y, c)
                == blur_map(
                src.width as int,
                src.height as int,
                channel_map(*src, c),
                k as nat,
            )[y * src.width + x],
{
    let b0 = blur(&extract_channel(src, 0), k);
    let b1 = blur(&extract_channel(src, 1), k);
    let b2 = blur(&extract_channel(src, 2), k);
    let out = merge_channels(&b0, &b1, &b2, src.format);
    proof {
        assert forall|x: int, y: int, c: int|
            0 <= x < src.width && 0 <= y < src.height && 0 <= c < 3 implies #[trigger] out.at(
            x,
            y,
            c,
        ) == blur_map(src.width as int, src.height as int, channel_map(*src, c), k as nat)[y
            * src.width + x] by {
            crate::frame::lemma_cell_index(src.width as int, src.height as int, x, y);
            if c == 0 {
                assert(out.at(x, y, 0) == b0.gray_grid()[y * src.width + x]);
            } else if c == 1 {
                assert(out.at(x, y, 1) == b1.gray_grid()[y * src.width + x]);
            } else {
                assert(out.at(x, y, 2) == b2.gray_grid()[y * src.width + x]);
            }
        }
    }
    out
}

/// The source column a nearest-neighbor resize reads for destination
/// column `x`: the floor of `x` rescaled from `to` columns back to
/// `from` columns.
pub open spec fn nearest_index(x: int, from: int, to: int) -> int {
    (x * from) / to
}

/// The nearest-neighbor index stays inside the source range.
pub proof fn lemma_nearest_in_range(x: int, from: int, to: int)
    requires
        0 <= x < to,
        from >= 1,
        to >= 1,
    ensures
        0 <= nearest_index(x, from, to) < from,
{
    let a = x * from;
    vstd::arithmetic::div_mod::lemma_fundamental_div_mod(a, to);
    vstd::arithmetic::div_mod::lemma_mod_bound(a, to);
    let q = a / to;
    let r = a % to;
    assert(0 <= q < from) by (nonlinear_arith)
        requires
            a == to * q + r,
            0 <= r < to,
            a == x * from,
            0 <= x < to,
            from >= 1,
            to >= 1,
    ;
}

/// Resamples a three-channel frame to `new_w`-by-`new_h` by nearest
/// neighbor: each output pixel copies the source pixel whose
/// coordinates are the floor-rescaled output coordinates.
#[verifier::loop_isolation(false)]
pub fn resize_nearest(src: &Frame, new_w: usize, new_h: usize) -> (out: Frame)
    requires
        src.wf(),
        src.format.spec_bytes_per_pixel() == 3,
        1 <= src.width <= MAX_DIM,
        1 <= src.height <= MAX_DIM,
        1 <= new_w <= MAX_DIM,
        1 <= new_h <= MAX_DIM,
    ensures
        out.wf(),
        out.format == src.format,
        out.width == new_w,
        out.height == new_h,
        out.stride == 3 * new_w,
        out.data@.len() == out.stride * out.height,
        forall|x: int, y: int, c: int|
            0 <= x < new_w && 0 <= y < new_h && 0 <= c < 3 ==> #[trigger] out.at(x, y, c)
                == src.at(
                nearest_index(x, src.width as int, new_w as int),
                nearest_index(y, src.height as int, new_h as int),
                c,
            ),
{
    let w = src.width;
    let h = src.height;
    proof {
        assert(new_w * new_h <= 0x8000 * 0x8000) by (nonlinear_arith)
            requires
                new_w <= 0x8000,
                new_h <= 0x8000,
        ;
    }
    let n = new_w * new_h;
    let stride = 3 * new_w;
    let mut data: Vec<u8> = Vec::new();
    let mut p: usize = 0;
    while p < n
        invariant
            p <= n,
            data@.len() == 3 * p,
            forall|i: int, c: int|
                0 <= i < p && 0 <= c < 3 ==> #[trigger] data@[3 * i + c] == src.at(
                    nearest_index(i % (new_w as int), w as int, new_w as int),
                    nearest_index(i / (new_w as int), h as int, new_h as int),
                    c,
                ),
        decreases n - p,
    {
        proof {
            lemma_flat_index(new_w as int, new_h as int, p as int);
            lemma_nearest_in_range((p % new_w) as int, w as int, new_w as int);
            lemma_nearest_in_range((p / new_w) as int, h as int, new_h as int);
        }
        let x = p % new_w;
        let y = p / new_w;
        proof {
            assert(x * w <= 0x8000 * 0x8000 && y * h <= 0x8000 * 0x8000) by (nonlinear_arith)
                requires
                    x < new_w <= 0x8000,
                    w <= 0x8000,
                    y < new_h <= 0x8000,
                    h <= 0x8000,
            ;
        }
        let sx = (x * w) / new_w;
        let sy = (y * h) / new_h;
        let c0 = src.channel(sx, sy, 0);
        let c1 = src.channel(sx, sy, 1);
        let c2 = src.channel(sx, sy, 2);
        data.push(c0);
        data.push(c1);
        data.push(c2);
        p += 1;
    }
    let out = Frame { width: new_w, height: new_h, stride, format: src.format, data };
    proof {
        assert(out.data@.len() == out.stride * out.height) by (nonlinear_arith)
            requires
                out.data@.len() == 3 * (new_w * new_h),
                out.stride == 3 * new_w,
                out.height == new_h,
        ;
        assert forall|x: int, y: int, c: int|
            0 <= x < new_w && 0 <= y < new_h && 0 <= c < 3 implies #[trigger] out.at(x, y, c)
            == src.at(
            nearest_index(x, src.width as int, new_w as int),
            nearest_index(y, src.height as int, new_h as int),
            c,
        ) by {
            crate::frame::lemma_cell_index(new_w as int, new_h as int, x, y);
            crate::frame::lemma_tight_at3(out, x, y, c);
        }
    }
    out
}

/// The source coordinate a pixelation with block parameter `k` reads
/// for output coordinate `x` along an axis of `full` pixels: down to
/// the `k`-sized thumbnail and back up by nearest neighbor.
pub open spec fn pixelate_source(x: int, full: int, k: int) -> int {
    nearest_index(nearest_index(x, k, full), full, k)
}

/// Pixelates a three-channel frame: shrinks it to `k`-by-`k` by
/// nearest neighbor and blows it back up to its own size, leaving
/// blocks of repeated pixels.
pub fn pixelate(src: &Frame, k: usize) -> (out: Frame)
    requires
        src.wf(),
        src.format.spec_bytes_per_pixel() == 3,
        1 <= src.width <= MAX_DIM,
        1 <= src.height <= MAX_DIM,
        1 <= k <= MAX_DIM,
    ensures
        out.wf(),
        out.format == src.format,
        out.width == src.width,
        out.height == src.height,
        forall|x: int, y: int, c: int|
            0 <= x < src.width && 0 <= y < src.height && 0 <= c < 3 ==> #[trigger] out.at(x, y, c)
                == src.at(
                pixelate_source(x, src.width as int, k as int),
                pixelate_source(y, src.height as int, k as int),
                c,
            ),
{
    let small = resize_nearest(src, k, k);
    let out = resize_nearest(&small, src.width, src.height);
    proof {
        assert forall|x: int, y: int, c: int|
            0 <= x < src.width && 0 <= y < src.height && 0 <= c < 3 implies #[trigger] out.at(
            x,
            y,
            c,
        ) == src.at(
            pixelate_source(x, src.width as int, k as int),
            pixelate_source(y, src.height as int, k as int),
            c,
        ) by {
            lemma_nearest_in_range(x, k as int, src.width as int);
            lemma_nearest_in_range(y, k as int, src.height as int);
        }
    }
    out
}

/// Every entry of the grid is zero.
pub open spec fn all_zero(g: Seq<u8>) -> bool {
    forall|i: int| 0 <= i < g.len() ==> g[i] == 0
}

/// On an all-zero `w`-by-`h` grid, every sample is zero, in or out of
/// bounds (with a zero default).
proof fn lemma_sample_zero(w: int, h: int, g: Seq<u8>, x: int, y: int)
    requires
        all_zero(g),
        g.len() == w * h,
    ensures
        sample(w, h, g, x, y, 0) == 0,
{
    if 0 <= x < w && 0 <= y < h {
        crate::frame::lemma_cell_index(w, h, x, y);
    }
}

/// Row sums over an all-zero grid are zero.
proof fn lemma_row_sum_zero(w: int, h: int, g: Seq<u8>, x: int, y: int, len: nat)
    requires
        all_zero(g),
        g.len() == w * h,
    ensures
        row_sum(w, h, g, x, y, len) == 0,
    decreases len,
{
    if len > 0 {
        lemma_row_sum_zero(w, h, g, x, y, (len - 1) as nat);
        lemma_sample_zero(w, h, g, x + len - 1, y);
    }
}

/// Window sums over an all-zero grid are zero.
proof fn lemma_window_sum_zero(w: int, h: int, g: Seq<u8>, x: int, y: int, kw: nat, kh: nat)
    requires
        all_zero(g),
        g.len() == w * h,
    ensures
        window_sum(w, h, g, x, y, kw, kh) == 0,
    decreases kh,
{
    if kh > 0 {
        lemma_window_sum_zero(w, h, g, x, y, kw, (kh - 1) as nat);
        lemma_row_sum_zero(w, h, g, x, y + kh - 1, kw);
    }
}

/// Blurring an all-zero grid yields an all-zero grid.
pub proof fn lemma_blur_map_zero(w: int, h: int, g: Seq<u8>, k: nat)
    requires
        all_zero(g),
        g.len() == w * h,
        k >= 1,
    ensures
        all_zero(blur_map(w, h, g, k)),
        blur_map(w, h, g, k).len() == w * h,
{
    assert forall|i: int| 0 <= i < blur_map(w, h, g, k).len() implies blur_map(w, h, g, k)[i]
        == 0 by {
        lemma_window_sum_zero(w, h, g, i % w - k / 2, i / w - k / 2, k, k);
        assert(k * k >= 1) by (nonlinear_arith)
            requires
                k >= 1,
        ;
        vstd::arithmetic::div_mod::lemma_div_basics((k * k) as int);
    }
}

/// Thresholding an all-zero grid at a positive bound yields an
/// all-zero grid.
pub proof fn lemma_threshold_map_zero(g: Seq<u8>, t: u8)
    requires
        all_zero(g),
        t >= 1,
    ensures
        all_zero(threshold_map(g, t)),
        threshold_map(g, t).len() == g.len(),
{
}

/// Eroding an all-zero grid any number of times yields an all-zero
/// grid: the center sample of every window is an in-bounds zero.
pub proof fn lemma_erode_iter_zero(w: int, h: int, g: Seq<u8>, n: nat)
    requires
        w >= 0,
        h >= 0,
        all_zero(g),
        g.len() == w * h,
    ensures
        all_zero(erode_iter(w, h, g, n)),
        erode_iter(w, h, g, n).len() == w * h,
    decreases n,
{
    if n > 0 {
        lemma_erode_iter_zero(w, h, g, (n - 1) as nat);
        let prev = erode_iter(w, h, g, (n - 1) as nat);
        assert forall|i: int| 0 <= i < erode_map(w, h, prev).len() implies erode_map(
            w,
            h,
            prev,
        )[i] == 0 by {
            crate::frame::lemma_flat_index(w, h, i);
            crate::frame::lemma_cell_index(w, h, i % w, i / w);
            assert(sample(w, h, prev, i % w, i / w, 255) == 0);
        }
    }
}

/// Dilating an all-zero grid any number of times yields an all-zero
/// grid: every sample is zero or the zero border default.
pub proof fn lemma_dilate_iter_zero(w: int, h: int, g: Seq<u8>, n: nat)
    requires
        w >= 0,
        h >= 0,
        all_zero(g),
        g.len() == w * h,
    ensures
        all_zero(dilate_iter(w, h, g, n)),
        dilate_iter(w, h, g, n).len() == w * h,
    decreases n,
{
    if n > 0 {
        lemma_dilate_iter_zero(w, h, g, (n - 1) as nat);
        let prev = dilate_iter(w, h, g, (n - 1) as nat);
        assert forall|i: int| 0 <= i < dilate_map(w, h, prev).len() implies dilate_map(
            w,
            h,
            prev,
        )[i] == 0 by {
            crate::frame::lemma_flat_index(w, h, i);
            let x = i % w;
            let y = i / w;
            lemma_sample_zero(w, h, prev, x - 1, y - 1);
            lemma_sample_zero(w, h, prev, x, y - 1);
            lemma_sample_zero(w, h, prev, x + 1, y - 1);
            lemma_sample_zero(w, h, prev, x - 1, y);
            lemma_sample_zero(w, h, prev, x, y);
            lemma_sample_zero(w, h, prev, x + 1, y);
            lemma_sample_zero(w, h, prev, x - 1, y + 1);
            lemma_sample_zero(w, h, prev, x, y + 1);
            lemma_sample_zero(w, h, prev, x + 1, y + 1);
        }
    }
}

/// The luminance of a frame whose buffer is all zero is all zero.
pub proof fn lemma_luma_map_zero(f: Frame)
    requires
        f.wf(),
        f.format.spec_bytes_per_pixel() == 3,
        forall|i: int| 0 <= i < f.data@.len() ==> f.data@[i] == 0,
    ensures
        all_zero(luma_map(f)),
        luma_map(f).len() == f.width * f.height,
{
    assert forall|i: int| 0 <= i < luma_map(f).len() implies luma_map(f)[i] == 0 by {
        crate::frame::lemma_flat_index(f.width as int, f.height as int, i);
        let x = i % (f.width as int);
        let y = i / (f.width as int);
        crate::frame::lemma_row_major_bounds(
            f.width as int,
            f.height as int,
            f.stride as int,
            3,
            x,
            y,
            red_channel(f.format),
        );
        crate::frame::lemma_row_major_bounds(
            f.width as int,
            f.height as int,
            f.stride as int,
            3,
            x,
            y,
            1,
        );
        crate::frame::lemma_row_major_bounds(
            f.width as int,
            f.height as int,
            f.stride as int,
            3,
            x,
            y,
            blue_channel(f.format),
        );
        vstd::arithmetic::div_mod::lemma_div_basics(1000);
    }
}

/// For a well-formed single-channel frame, `width * height` fits in
/// `usize` (it is at most the buffer length).
pub proof fn lemma_grays_fit(f: Frame)
    requires
        f.wf(),
        f.format.spec_bytes_per_pixel() >= 1,
    ensures
        f.width * f.height <= f.data@.len(),
{
    assert(f.width * f.height <= f.stride * f.height) by (nonlinear_arith)
        requires
            f.stride >= f.width * f.format.spec_bytes_per_pixel(),
            f.format.spec_bytes_per_pixel() >= 1,
            f.width >= 0,
            f.height >= 0,
    ;
}

} // verus!
