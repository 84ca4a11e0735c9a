//! The stateless analysis stage: from a three-channel frame to the
//! bright foreground regions it contains, with an optional
//! visualization of the binary mask.
//!
//! Pipeline, in order: luminance conversion, 11-by-11 box blur,
//! binary threshold at 230, two erosion passes, four dilation passes,
//! then 4-connected component labeling.

use vstd::prelude::*;
use crate::components::{components_ok, find_objects_mask, ConnectedComponent};
use crate::filters::{blur, blur_map, dilate_iter, dilate_n, erode_iter, erode_n, expand_gray,
    luma_map, threshold, threshold_map, to_gray, MAX_DIM};
use crate::frame::{Frame, FrameError, PixelFormat};

verus! {

/// Luminance at or above this value counts as bright foreground.
pub const LUMA_THRESHOLD: u8 = 230;

/// Side of the square box-blur kernel that suppresses noise.
pub const BLUR_KERNEL: usize = 11;

/// Erosion passes that remove speckle noise.
pub const ERODE_PASSES: usize = 2;

/// Dilation passes that re-expand and merge nearby blobs.
pub const DILATE_PASSES: usize = 4;

/// The binary mask the detection pipeline computes from a
/// three-channel frame: luminance, box blur, threshold, erosion,
/// dilation, as one composed function of the input pixels.
pub open spec fn detection_mask(f: Frame) -> Seq<u8> {
    let w = f.width as int;
    let h = f.height as int;
    dilate_iter(
        w,
        h,
        erode_iter(
            w,
            h,
            threshold_map(blur_map(w, h, luma_map(f), BLUR_KERNEL as nat), LUMA_THRESHOLD),
            ERODE_PASSES as nat,
        ),
        DILATE_PASSES as nat,
    )
}

/// Half of the detection round trip: a uniform black frame contains
/// no bright region. On a frame whose bytes are all zero, every stage
/// of the pipeline produces an all-zero grid, so the detection mask
/// has no foreground — and with [`find_objects`]'s contract, the
/// returned component list is empty.
pub proof fn lemma_black_frame_yields_no_foreground(f: Frame)
    requires
        f.wf(),
        f.format.spec_bytes_per_pixel() == 3,
        forall|i: int| 0 <= i < f.data@.len() ==> f.data@[i] == 0,
    ensures
        crate::filters::all_zero(detection_mask(f)),
        !crate::components::has_fg(detection_mask(f)),
{
    let w = f.width as int;
    let h = f.height as int;
    crate::filters::lemma_luma_map_zero(f);
    crate::filters::lemma_blur_map_zero(w, h, luma_map(f), BLUR_KERNEL as nat);
    crate::filters::lemma_threshold_map_zero(
        blur_map(w, h, luma_map(f), BLUR_KERNEL as nat),
        LUMA_THRESHOLD,
    );
    crate::filters::lemma_erode_iter_zero(
        w,
        h,
        threshold_map(blur_map(w, h, luma_map(f), BLUR_KERNEL as nat), LUMA_THRESHOLD),
        ERODE_PASSES as nat,
    );
    crate::filters::lemma_dilate_iter_zero(
        w,
        h,
        erode_iter(
            w,
            h,
            threshold_map(blur_map(w, h, luma_map(f), BLUR_KERNEL as nat), LUMA_THRESHOLD),
            ERODE_PASSES as nat,
        ),
        DILATE_PASSES as nat,
    );
}

/// Runs the pixel pipeline and returns the binary detection mask as a
/// single-channel frame.
fn detection_mask_frame(src: &Frame) -> (mask: Frame)
    requires
        src.wf(),
        src.format.spec_bytes_per_pixel() == 3,
        src.width <= MAX_DIM,
        src.height <= MAX_DIM,
    ensures
        mask.wf(),
        mask.format == PixelFormat::Gray8,
        mask.width == src.width,
        mask.height == src.height,
        mask.gray_grid() == detection_mask(*src),
{
    let gray = to_gray(src);
    let blurred = blur(&gray, BLUR_KERNEL);
    let thresholded = threshold(&blurred, LUMA_THRESHOLD);
    let eroded = erode_n(&thresholded, ERODE_PASSES);
    dilate_n(&eroded, DILATE_PASSES)
}

/// Detects the bright foreground regions of a three-channel frame:
/// the connected components of its detection mask.
pub fn find_objects(src: &Frame) -> (components: Vec<ConnectedComponent>)
    requires
        src.wf(),
        src.format.spec_bytes_per_pixel() == 3,
        src.width <= MAX_DIM,
        src.height <= MAX_DIM,
    ensures
        components_ok(components@, src.width as int, src.height as int, detection_mask(*src)),
{
    let mask = detection_mask_frame(src);
    find_objects_mask(&mask)
}

/// Like [`find_objects`], and additionally fills the caller-supplied
/// `viz` frame with the detection mask expanded to the input's
/// channel count, so it can be displayed through the same path as the
/// source frame. `viz` must already match the input's format, width
/// and height; a mismatch is reported as an error and leaves `viz`
/// untouched.
pub fn find_objects_with_frame(src: &Frame, viz: &mut Frame) -> (result: Result<
    Vec<ConnectedComponent>,
    FrameError,
>)
    requires
        src.wf(),
        src.format.spec_bytes_per_pixel() == 3,
        src.width <= MAX_DIM,
        src.height <= MAX_DIM,
    ensures
        match result {
            Ok(components) => {
                &&& old(viz).same_shape(*src)
                &&& components_ok(
                    components@,
                    src.width as int,
                    src.height as int,
                    detection_mask(*src),
                )
                &&& final(viz).wf()
                &&& final(viz).same_shape(*old(viz))
                &&& forall|x: int, y: int, c: int|
                    0 <= x < src.width && 0 <= y < src.height && 0 <= c < 3
                        ==> #[trigger] final(viz).at(x, y, c) == detection_mask(*src)[y
                        * src.width + x]
            },
            Err(e) => {
                &&& e == FrameError::FormatMismatch
                &&& !old(viz).same_shape(*src)
                &&& *final(viz) == *old(viz)
            },
        },
{
    let matches = viz.format == src.format && viz.width == src.width && viz.height == src.height;
    if !matches {
        return Err(FrameError::FormatMismatch);
    }
    let mask = detection_mask_frame(src);
    let filled = expand_gray(&mask, src.format);
    let components = find_objects_mask(&mask);
    *viz = filled;
    Ok(components)
}

/// Analyzes frames of one fixed size: the stateless pipeline behind a
/// handle that remembers the expected geometry, so that a frame of
/// the wrong size is rejected as a contract violation rather than
/// silently reshaped.
#[derive(Clone, Copy, Debug)]
pub struct ImageAnalyzer {
    /// Expected frame width in pixels.
    pub width: usize,
    /// Expected frame height in pixels.
    pub height: usize,
}

impl ImageAnalyzer {
    /// The accepted geometry is nonempty and within the filters'
    /// dimension limit.
    pub open spec fn wf(self) -> bool {
        &&& 1 <= self.width <= MAX_DIM
        &&& 1 <= self.height <= MAX_DIM
    }

    /// An analyzer for frames of the given size; rejects an empty or
    /// oversized geometry.
    pub fn new(width: usize, height: usize) -> (result: Result<ImageAnalyzer, FrameError>)
        ensures
            match result {
                Ok(analyzer) => {
                    &&& analyzer.wf()
                    &&& analyzer.width == width
                    &&& analyzer.height == height
                },
                Err(e) => {
                    &&& e == FrameError::FormatMismatch
                    &&& (width < 1 || width > MAX_DIM || height < 1 || height > MAX_DIM)
                },
            },
    {
        if width < 1 || width > MAX_DIM || height < 1 || height > MAX_DIM {
            return Err(FrameError::FormatMismatch);
        }
        Ok(ImageAnalyzer { width, height })
    }

    /// Whether a frame has the geometry and channel count this
    /// analyzer was built for.
    pub open spec fn accepts(self, f: Frame) -> bool {
        &&& f.width == self.width
        &&& f.height == self.height
        &&& f.format.spec_bytes_per_pixel() == 3
    }

    /// Detects the bright regions of `frame`; a frame of the wrong
    /// size or channel count is rejected.
    pub fn analyze(&self, frame: &Frame) -> (result: Result<Vec<ConnectedComponent>, FrameError>)
        requires
            self.wf(),
            frame.wf(),
        ensures
            match result {
                Ok(components) => {
                    &&& self.accepts(*frame)
                    &&& components_ok(
                        components@,
                        frame.width as int,
                        frame.height as int,
                        detection_mask(*frame),
                    )
                },
                Err(e) => {
                    &&& e == FrameError::FormatMismatch
                    &&& !self.accepts(*frame)
                },
            },
    {
        let three_channel = match frame.format {
            PixelFormat::Gray8 => false,
            _ => true,
        };
        if !(frame.width == self.width && frame.height == self.height && three_channel) {
            return Err(FrameError::FormatMismatch);
        }
        Ok(find_objects(frame))
    }

    /// Detects the bright regions of `frame` and fills `viz` with the
    /// detection mask expanded to the input's channel count; `viz`
    /// must already match the input's format and size.
    pub fn find_components_with_intermediate_frame(
        &self,
        frame: &Frame,
        viz: &mut Frame,
    ) -> (result: Result<Vec<ConnectedComponent>, FrameError>)
        requires
            self.wf(),
            frame.wf(),
        ensures
            match result {
                Ok(components) => {
                    &&& self.accepts(*frame)
                    &&& old(viz).same_shape(*frame)
                    &&& components_ok(
                        components@,
                        frame.width as int,
                        frame.height as int,
                        detection_mask(*frame),
                    )
                    &&& final(viz).wf()
                    &&& final(viz).same_shape(*old(viz))
                    &&& forall|x: int, y: int, c: int|
                        0 <= x < frame.width && 0 <= y < frame.height && 0 <= c < 3
                            ==> #[trigger] final(viz).at(x, y, c) == detection_mask(*frame)[y
                            * frame.width + x]
                },
                Err(e) => {
                    &&& e == FrameError::FormatMismatch
                    &&& (!self.accepts(*frame) || !old(viz).same_shape(*frame))
                    &&& *final(viz) == *old(viz)
                },
            },
    {
        let three_channel = match frame.format {
            PixelFormat::Gray8 => false,
            _ => true,
        };
        if !(frame.width == self.width && frame.height == self.height && three_channel) {
            return Err(FrameError::FormatMismatch);
        }
        find_objects_with_frame(frame, viz)
    }
}

} // verus!
