use augment::cache::{CachedValue, FrameFilter};
use augment::frame::{Frame, PixelFormat};
use augment::pacer::{RenderPacer, MIN_SLEEP};
use augment::program::{CompileError, ProgramHandle};
use augment::source::{FrameSource, SourceError, FRAME_DELAY_MS};

fn gray_frame(width: usize, height: usize, data: Vec<u8>) -> Frame {
    Frame::from_data(width, height, width, PixelFormat::Gray8, data).unwrap()
}

fn err(message: &str) -> CompileError {
    CompileError { message: message.to_string() }
}

#[test]
fn pacer_returns_remaining_time_under_budget() {
    let pacer = RenderPacer::new(16_666_667);
    assert_eq!(pacer.sleep_duration(10_000_000), 6_666_667);
    assert_eq!(pacer.sleep_duration(0), 16_666_667);
    assert_eq!(pacer.sleep_duration(16_666_666), 1);
}

#[test]
fn pacer_clamps_overruns_to_minimum() {
    let pacer = RenderPacer::new(16_666_667);
    assert_eq!(pacer.sleep_duration(16_666_667), MIN_SLEEP);
    assert_eq!(pacer.sleep_duration(20_000_000), MIN_SLEEP);
    assert_eq!(pacer.sleep_duration(u64::MAX), MIN_SLEEP);
    assert!(MIN_SLEEP > 0);
}

#[test]
fn source_emits_periodic_frame_indices() {
    let mut source = FrameSource::open(3).unwrap();
    let mut indices = Vec::new();
    for _pass in 0..2 {
        for _ in 0..3 {
            indices.push(source.next_frame());
        }
        source.end_of_stream();
    }
    // Two passes over three frames: the sequence repeats with period 3.
    assert_eq!(indices, vec![0, 1, 2, 0, 1, 2]);
}

#[test]
fn source_rejects_frameless_input() {
    match FrameSource::open(0) {
        Ok(_) => panic!("an input with no frames must be rejected"),
        Err(e) => assert_eq!(e, SourceError::NotFound),
    }
}

#[test]
fn source_reports_hard_error_once() {
    let mut source = FrameSource::open(2).unwrap();
    let _ = source.next_frame();
    let reported = source.fail(SourceError::DecodeError);
    assert_eq!(reported, SourceError::DecodeError);
    assert!(source.failed);
}

#[test]
fn source_paces_at_a_fixed_delay() {
    assert_eq!(FRAME_DELAY_MS, 16);
}

#[test]
fn cache_serves_transform_of_latest_source() {
    let seed = gray_frame(2, 1, vec![10, 240]);
    let mut cache = CachedValue::new(FrameFilter::Threshold(100), seed);
    assert_eq!(cache.current().data, vec![0, 255]);
    // A new frame arrives: the derived value is recomputed eagerly.
    cache.update(gray_frame(2, 1, vec![200, 5]));
    assert_eq!(cache.current().data, vec![255, 0]);
    // Reads in between do not recompute or change it.
    assert_eq!(cache.current().data, vec![255, 0]);
}

#[test]
fn cache_update_overwrites_unconditionally() {
    let seed = gray_frame(1, 1, vec![0]);
    let mut cache = CachedValue::new(FrameFilter::Threshold(128), seed);
    for v in [0u8, 127, 128, 255, 1] {
        cache.update(gray_frame(1, 1, vec![v]));
        let expected = if v >= 128 { 255 } else { 0 };
        assert_eq!(cache.current().data, vec![expected]);
    }
}

#[test]
fn cache_applies_grayscale_filter() {
    let seed = Frame::from_data(1, 1, 3, PixelFormat::Rgb24, vec![100, 150, 200]).unwrap();
    let cache = CachedValue::new(FrameFilter::Grayscale, seed);
    assert_eq!(cache.current().data, vec![140]);
}

#[test]
fn program_survives_failed_recompiles_while_valid() {
    let mut handle: ProgramHandle<u32> = ProgramHandle::new(true, Ok(7));
    assert_eq!(*handle.as_program().unwrap(), 7);
    for _ in 0..5 {
        handle.poll(Some(Err(err("syntax error"))));
        // The defining contract: a failed recompile never replaces a
        // working program.
        assert_eq!(*handle.as_program().unwrap(), 7);
    }
    handle.poll(Some(Ok(9)));
    assert_eq!(*handle.as_program().unwrap(), 9);
}

#[test]
fn program_updates_error_while_invalid() {
    let mut handle: ProgramHandle<u32> = ProgramHandle::new(true, Err(err("first")));
    assert_eq!(handle.as_program().unwrap_err().message, "first");
    handle.poll(Some(Err(err("second"))));
    assert_eq!(handle.as_program().unwrap_err().message, "second");
    handle.poll(Some(Ok(3)));
    assert_eq!(*handle.as_program().unwrap(), 3);
}

#[test]
fn program_ignores_quiet_ticks() {
    let mut handle: ProgramHandle<u32> = ProgramHandle::new(true, Ok(1));
    handle.poll(None);
    assert_eq!(*handle.as_program().unwrap(), 1);
}

#[test]
fn program_never_changes_with_hot_reload_off() {
    let mut handle: ProgramHandle<u32> = ProgramHandle::new(false, Ok(1));
    handle.poll(Some(Ok(2)));
    handle.poll(Some(Err(err("ignored"))));
    assert_eq!(*handle.as_program().unwrap(), 1);
}
