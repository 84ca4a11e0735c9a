use augment::filters::{blur, blur_color, convert, copy_gray, dilate, erode, expand_gray, max2,
    min2, pixelate, resize_nearest, threshold, to_gray};
use augment::frame::{Frame, PixelFormat};

fn gray_frame(width: usize, height: usize, data: Vec<u8>) -> Frame {
    Frame::from_data(width, height, width, PixelFormat::Gray8, data).unwrap()
}

fn rgb_frame(width: usize, height: usize, data: Vec<u8>) -> Frame {
    Frame::from_data(width, height, width * 3, PixelFormat::Rgb24, data).unwrap()
}

fn bgr_frame(width: usize, height: usize, data: Vec<u8>) -> Frame {
    Frame::from_data(width, height, width * 3, PixelFormat::Bgr24, data).unwrap()
}

#[test]
fn luma_weights_rgb() {
    // (299 * 100 + 587 * 150 + 114 * 200) / 1000 = 140750 / 1000 = 140
    let f = rgb_frame(1, 1, vec![100, 150, 200]);
    let g = to_gray(&f);
    assert_eq!(g.format, PixelFormat::Gray8);
    assert_eq!(g.data, vec![140]);
}

#[test]
fn luma_weights_bgr() {
    // Same bytes read as BGR: r = 200, g = 150, b = 100.
    // (299 * 200 + 587 * 150 + 114 * 100) / 1000 = 159250 / 1000 = 159
    let f = bgr_frame(1, 1, vec![100, 150, 200]);
    let g = to_gray(&f);
    assert_eq!(g.data, vec![159]);
}

#[test]
fn luma_extremes() {
    let f = rgb_frame(2, 1, vec![255, 255, 255, 0, 0, 0]);
    let g = to_gray(&f);
    assert_eq!(g.data, vec![255, 0]);
}

#[test]
fn threshold_is_inclusive_at_the_bound() {
    let f = gray_frame(4, 1, vec![0, 229, 230, 255]);
    let t = threshold(&f, 230);
    assert_eq!(t.data, vec![0, 0, 255, 255]);
}

#[test]
fn blur_averages_with_zero_border() {
    // 3x3 frame of 255s, kernel 3: the center window is all inside
    // (9 * 255 / 9 = 255); a corner window holds four pixels and five
    // zero border samples (4 * 255 / 9 = 113).
    let f = gray_frame(3, 3, vec![255; 9]);
    let b = blur(&f, 3);
    assert_eq!(b.gray(1, 1), 255);
    assert_eq!(b.gray(0, 0), 113);
    // An edge window holds six pixels: 6 * 255 / 9 = 170.
    assert_eq!(b.gray(1, 0), 170);
}

#[test]
fn blur_kernel_one_is_identity() {
    let f = gray_frame(2, 2, vec![1, 2, 3, 4]);
    let b = blur(&f, 1);
    assert_eq!(b.data, vec![1, 2, 3, 4]);
}

#[test]
fn erode_removes_isolated_pixel() {
    let mut data = vec![0u8; 9];
    data[4] = 255; // center of a 3x3 frame
    let f = gray_frame(3, 3, data);
    let e = erode(&f);
    assert_eq!(e.data, vec![0; 9]);
}

#[test]
fn erode_keeps_solid_frame_via_neutral_border() {
    let f = gray_frame(3, 3, vec![255; 9]);
    let e = erode(&f);
    assert_eq!(e.data, vec![255; 9]);
}

#[test]
fn dilate_grows_isolated_pixel_to_block() {
    let mut data = vec![0u8; 25];
    data[12] = 255; // center of a 5x5 frame
    let f = gray_frame(5, 5, data);
    let d = dilate(&f);
    for y in 0..5 {
        for x in 0..5 {
            let expected = if (1..=3).contains(&x) && (1..=3).contains(&y) { 255 } else { 0 };
            assert_eq!(d.gray(x, y), expected, "pixel ({x}, {y})");
        }
    }
}

#[test]
fn convert_swaps_red_and_blue() {
    let f = rgb_frame(2, 1, vec![10, 20, 30, 40, 50, 60]);
    let c = convert(&f, PixelFormat::Bgr24);
    assert_eq!(c.format, PixelFormat::Bgr24);
    assert_eq!(c.data, vec![30, 20, 10, 60, 50, 40]);
}

#[test]
fn convert_to_same_format_keeps_bytes() {
    let f = rgb_frame(1, 1, vec![7, 8, 9]);
    let c = convert(&f, PixelFormat::Rgb24);
    assert_eq!(c.data, vec![7, 8, 9]);
}

#[test]
fn convert_round_trip_restores_pixels() {
    let f = rgb_frame(2, 1, vec![1, 2, 3, 4, 5, 6]);
    let back = convert(&convert(&f, PixelFormat::Bgr24), PixelFormat::Rgb24);
    assert_eq!(back.data, vec![1, 2, 3, 4, 5, 6]);
}

#[test]
fn expand_gray_repeats_luminance() {
    let f = gray_frame(2, 1, vec![7, 250]);
    let e = expand_gray(&f, PixelFormat::Rgb24);
    assert_eq!(e.format, PixelFormat::Rgb24);
    assert_eq!(e.data, vec![7, 7, 7, 250, 250, 250]);
}

#[test]
fn copy_gray_strips_padding() {
    let f = Frame::from_data(2, 2, 3, PixelFormat::Gray8, vec![1, 2, 9, 3, 4, 9]).unwrap();
    let c = copy_gray(&f);
    assert_eq!(c.stride, 2);
    assert_eq!(c.data, vec![1, 2, 3, 4]);
}

#[test]
fn resize_nearest_doubles_pixels() {
    let f = rgb_frame(2, 1, vec![1, 2, 3, 4, 5, 6]);
    let r = resize_nearest(&f, 4, 1);
    assert_eq!(r.data, vec![1, 2, 3, 1, 2, 3, 4, 5, 6, 4, 5, 6]);
}

#[test]
fn pixelate_to_one_block_repeats_first_sample() {
    let f = rgb_frame(2, 2, vec![1, 2, 3, 4, 5, 6, 7, 8, 9, 10, 11, 12]);
    let p = pixelate(&f, 1);
    assert_eq!(p.width, 2);
    assert_eq!(p.height, 2);
    assert_eq!(p.data, vec![1, 2, 3, 1, 2, 3, 1, 2, 3, 1, 2, 3]);
}

#[test]
fn min2_max2_order_bytes() {
    assert_eq!(min2(3, 250), 3);
    assert_eq!(min2(250, 3), 3);
    assert_eq!(max2(3, 250), 250);
    assert_eq!(max2(250, 3), 250);
}

#[test]
fn blur_color_averages_each_channel_independently() {
    // 3x3 frame, every pixel (90, 180, 255), kernel 3: the center
    // keeps each channel; a corner averages four pixels against five
    // zero border samples per channel.
    let mut data = Vec::new();
    for _ in 0..9 {
        data.extend_from_slice(&[90, 180, 255]);
    }
    let f = rgb_frame(3, 3, data);
    let b = blur_color(&f, 3);
    assert_eq!(b.format, PixelFormat::Rgb24);
    let center = 1 * b.stride + 1 * 3;
    assert_eq!(&b.data[center..center + 3], &[90, 180, 255]);
    // corner: 4 * v / 9 per channel
    assert_eq!(&b.data[0..3], &[40, 80, 113]);
}
