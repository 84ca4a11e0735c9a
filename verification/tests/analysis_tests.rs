use augment::analyzer::{find_objects, find_objects_with_frame, ImageAnalyzer};
use augment::components::find_objects_mask;
use augment::frame::{Frame, FrameError, PixelFormat};

fn gray_frame(width: usize, height: usize, data: Vec<u8>) -> Frame {
    Frame::from_data(width, height, width, PixelFormat::Gray8, data).unwrap()
}

fn rgb_frame(width: usize, height: usize, data: Vec<u8>) -> Frame {
    Frame::from_data(width, height, width * 3, PixelFormat::Rgb24, data).unwrap()
}

/// A black RGB frame with a solid white square of side `side` whose
/// top-left corner is at (`left`, `top`).
fn frame_with_square(size: usize, left: usize, top: usize, side: usize) -> Frame {
    let mut data = vec![0u8; size * size * 3];
    for y in top..top + side {
        for x in left..left + side {
            for c in 0..3 {
                data[y * size * 3 + x * 3 + c] = 255;
            }
        }
    }
    rgb_frame(size, size, data)
}

#[test]
fn labeling_finds_single_pixel_region() {
    let mut data = vec![0u8; 25];
    data[2 * 5 + 2] = 255;
    let mask = gray_frame(5, 5, data);
    let components = find_objects_mask(&mask);
    assert_eq!(components.len(), 1);
    let c = &components[0];
    assert_eq!((c.left, c.top, c.width, c.height, c.area), (2, 2, 1, 1, 1));
}

#[test]
fn labeling_separates_disconnected_regions() {
    let mut data = vec![0u8; 25];
    data[0] = 255; // (0, 0)
    data[4 * 5 + 4] = 255; // (4, 4)
    let mask = gray_frame(5, 5, data);
    let components = find_objects_mask(&mask);
    assert_eq!(components.len(), 2);
    assert!(components.iter().all(|c| c.area == 1));
}

#[test]
fn labeling_joins_four_connected_pixels() {
    // An L of three pixels: (1,1), (1,2), (2,2).
    let mut data = vec![0u8; 16];
    data[1 * 4 + 1] = 255;
    data[2 * 4 + 1] = 255;
    data[2 * 4 + 2] = 255;
    let mask = gray_frame(4, 4, data);
    let components = find_objects_mask(&mask);
    assert_eq!(components.len(), 1);
    let c = &components[0];
    assert_eq!((c.left, c.top, c.width, c.height, c.area), (1, 1, 2, 2, 3));
}

#[test]
fn labeling_treats_diagonals_as_separate() {
    // Two pixels touching only at a corner: not 4-connected.
    let mut data = vec![0u8; 16];
    data[1 * 4 + 1] = 255;
    data[2 * 4 + 2] = 255;
    let mask = gray_frame(4, 4, data);
    let components = find_objects_mask(&mask);
    assert_eq!(components.len(), 2);
}

#[test]
fn black_frame_yields_no_components() {
    let frame = rgb_frame(200, 200, vec![0u8; 200 * 200 * 3]);
    let components = find_objects(&frame);
    assert_eq!(components.len(), 0);
}

#[test]
fn white_square_yields_one_component_near_its_bounds() {
    // A 40x40 white square at (80, 80) on a 200x200 black frame: well
    // larger than the morphological kernels, so exactly one region,
    // whose box matches the square within the blur/threshold shrink
    // and dilation growth, and whose area is within that tolerance of
    // 40 * 40.
    let frame = frame_with_square(200, 80, 80, 40);
    let components = find_objects(&frame);
    assert_eq!(components.len(), 1);
    let c = &components[0];
    assert!(c.left >= 74 && c.left <= 86, "left = {}", c.left);
    assert!(c.top >= 74 && c.top <= 86, "top = {}", c.top);
    assert!(c.width >= 30 && c.width <= 46, "width = {}", c.width);
    assert!(c.height >= 30 && c.height <= 46, "height = {}", c.height);
    assert!(c.area >= 900 && c.area <= 2116, "area = {}", c.area);
    // The box covers the square's center.
    assert!(c.left <= 100 && 100 < c.left + c.width);
    assert!(c.top <= 100 && 100 < c.top + c.height);
}

#[test]
fn visualization_carries_the_mask_through_the_display_format() {
    let frame = frame_with_square(64, 12, 12, 30);
    let mut viz = Frame::new_zeroed(64, 64, PixelFormat::Rgb24);
    let components = find_objects_with_frame(&frame, &mut viz).unwrap();
    assert_eq!(components.len(), 1);
    assert_eq!(viz.format, PixelFormat::Rgb24);
    assert_eq!(viz.width, 64);
    assert_eq!(viz.height, 64);
    // The mask is binary, expanded to equal channels.
    let center = (27 * viz.stride) + 27 * 3;
    assert_eq!(viz.data[center], 255);
    assert_eq!(viz.data[center + 1], 255);
    assert_eq!(viz.data[center + 2], 255);
    assert_eq!(viz.data[0], 0);
}

#[test]
fn visualization_rejects_mismatched_frame() {
    let frame = rgb_frame(8, 8, vec![0u8; 8 * 8 * 3]);
    let mut viz = Frame::new_zeroed(9, 8, PixelFormat::Rgb24);
    let r = find_objects_with_frame(&frame, &mut viz);
    assert_eq!(r.unwrap_err(), FrameError::FormatMismatch);
    // The mismatched frame is untouched.
    assert!(viz.data.iter().all(|&b| b == 0));
}

#[test]
fn analyzer_rejects_wrong_geometry() {
    let analyzer = ImageAnalyzer::new(16, 16).unwrap();
    let frame = rgb_frame(8, 8, vec![0u8; 8 * 8 * 3]);
    assert_eq!(analyzer.analyze(&frame).unwrap_err(), FrameError::FormatMismatch);
}

#[test]
fn analyzer_rejects_single_channel_input() {
    let analyzer = ImageAnalyzer::new(8, 8).unwrap();
    let frame = gray_frame(8, 8, vec![0u8; 64]);
    assert_eq!(analyzer.analyze(&frame).unwrap_err(), FrameError::FormatMismatch);
}

#[test]
fn analyzer_rejects_empty_geometry() {
    assert_eq!(ImageAnalyzer::new(0, 8).unwrap_err(), FrameError::FormatMismatch);
}

#[test]
fn analyzer_accepts_matching_frame() {
    let analyzer = ImageAnalyzer::new(8, 8).unwrap();
    let frame = rgb_frame(8, 8, vec![0u8; 8 * 8 * 3]);
    assert_eq!(analyzer.analyze(&frame).unwrap().len(), 0);
}

#[test]
fn analyzer_intermediate_frame_matches_direct_call() {
    let analyzer = ImageAnalyzer::new(64, 64).unwrap();
    let frame = frame_with_square(64, 12, 12, 30);
    let mut viz = Frame::new_zeroed(64, 64, PixelFormat::Rgb24);
    let components = analyzer
        .find_components_with_intermediate_frame(&frame, &mut viz)
        .unwrap();
    let direct = find_objects(&frame);
    assert_eq!(components.len(), direct.len());
    assert_eq!(components[0].area, direct[0].area);
}
