use augment::frame::{Frame, FrameError, PixelFormat};
use augment::channel::{ChannelClosed, FrameChannel};

fn rgb_frame(width: usize, height: usize, data: Vec<u8>) -> Frame {
    Frame::from_data(width, height, width * 3, PixelFormat::Rgb24, data).unwrap()
}

#[test]
fn zeroed_frame_upholds_buffer_invariant() {
    let f = Frame::new_zeroed(7, 5, PixelFormat::Rgb24);
    assert_eq!(f.width, 7);
    assert_eq!(f.height, 5);
    assert_eq!(f.stride, 21);
    assert_eq!(f.format, PixelFormat::Rgb24);
    assert!(f.stride * f.height <= f.data.len());
    assert!(f.data.iter().all(|&b| b == 0));
}

#[test]
fn zeroed_gray_frame_has_single_channel_rows() {
    let f = Frame::new_zeroed(4, 3, PixelFormat::Gray8);
    assert_eq!(f.stride, 4);
    assert_eq!(f.data.len(), 12);
    assert!(f.stride * f.height <= f.data.len());
}

#[test]
fn from_data_accepts_matching_geometry() {
    let f = Frame::from_data(2, 2, 6, PixelFormat::Bgr24, vec![0u8; 12]).unwrap();
    assert_eq!(f.width, 2);
    assert!(f.stride * f.height <= f.data.len());
}

#[test]
fn from_data_rejects_short_buffer() {
    let r = Frame::from_data(2, 2, 6, PixelFormat::Bgr24, vec![0u8; 11]);
    assert_eq!(r.unwrap_err(), FrameError::FormatMismatch);
}

#[test]
fn from_data_rejects_narrow_stride() {
    let r = Frame::from_data(2, 2, 5, PixelFormat::Bgr24, vec![0u8; 12]);
    assert_eq!(r.unwrap_err(), FrameError::FormatMismatch);
}

#[test]
fn from_data_accepts_padded_stride() {
    let f = Frame::from_data(2, 2, 8, PixelFormat::Rgb24, vec![9u8; 16]).unwrap();
    assert_eq!(f.stride, 8);
    assert!(f.stride * f.height <= f.data.len());
}

#[test]
fn channel_reads_respect_stride_padding() {
    // 1x1 RGB pixel (1, 2, 3) in a row padded to stride 5.
    let f = Frame::from_data(1, 1, 5, PixelFormat::Rgb24, vec![1, 2, 3, 0, 0]).unwrap();
    assert_eq!(f.channel(0, 0, 0), 1);
    assert_eq!(f.channel(0, 0, 1), 2);
    assert_eq!(f.channel(0, 0, 2), 3);
}

#[test]
fn gray_reads_row_major() {
    let f = Frame::from_data(2, 2, 2, PixelFormat::Gray8, vec![10, 20, 30, 40]).unwrap();
    assert_eq!(f.gray(0, 0), 10);
    assert_eq!(f.gray(1, 0), 20);
    assert_eq!(f.gray(0, 1), 30);
    assert_eq!(f.gray(1, 1), 40);
}

#[test]
fn channel_hands_frames_over_in_fifo_order() {
    let mut ch = FrameChannel::new();
    assert!(ch.poll().is_none());
    ch.push(rgb_frame(1, 1, vec![1, 1, 1])).unwrap();
    ch.push(rgb_frame(1, 1, vec![2, 2, 2])).unwrap();
    ch.push(rgb_frame(1, 1, vec![3, 3, 3])).unwrap();
    assert_eq!(ch.len(), 3);
    assert_eq!(ch.poll().unwrap().data[0], 1);
    assert_eq!(ch.poll().unwrap().data[0], 2);
    assert_eq!(ch.poll().unwrap().data[0], 3);
    assert!(ch.poll().is_none());
}

#[test]
fn channel_drains_at_most_one_frame_per_poll() {
    let mut ch = FrameChannel::new();
    ch.push(rgb_frame(1, 1, vec![1, 1, 1])).unwrap();
    ch.push(rgb_frame(1, 1, vec![2, 2, 2])).unwrap();
    let _ = ch.poll();
    // One poll removed exactly one frame; the backlog remains.
    assert_eq!(ch.len(), 1);
}

#[test]
fn closed_channel_refuses_frames() {
    let mut ch = FrameChannel::new();
    ch.push(rgb_frame(1, 1, vec![1, 1, 1])).unwrap();
    ch.close();
    assert!(ch.is_closed());
    let r = ch.push(rgb_frame(1, 1, vec![2, 2, 2]));
    assert_eq!(r.unwrap_err(), ChannelClosed);
    // The frame queued before the close is still drained.
    assert_eq!(ch.poll().unwrap().data[0], 1);
}
