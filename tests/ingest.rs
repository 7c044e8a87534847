use instant_replay::buffer::AudioBuffer;
use instant_replay::frame::AudioFrameData;
use instant_replay::ingest::{audio_frame_count, IngestError};

#[test]
fn odd_sample_count_is_invalid_data() {
    assert_eq!(audio_frame_count(999, 2, 960), Err(IngestError::InvalidData));
}

#[test]
fn whole_frames_are_counted() {
    assert_eq!(audio_frame_count(1920, 2, 960), Ok(2));
    assert_eq!(audio_frame_count(2000, 2, 960), Ok(2));
    assert_eq!(audio_frame_count(100, 2, 960), Ok(0));
    assert_eq!(audio_frame_count(0, 2, 960), Ok(0));
}

#[test]
fn first_frame_pts_from_capture_time_then_frame_size() {
    let mut buf = AudioBuffer::new(10_000_000);
    assert_eq!(buf.next_frame_pts(2_000_000, 1920, 960), Some(3840));
    let mut f = AudioFrameData::new();
    f.set_time(3840);
    buf.push(f);
    assert_eq!(buf.next_frame_pts(2_000_000, 1920, 960), Some(4800));
    assert_eq!(buf.next_frame_pts(9_999_999, 7, 960), Some(4800));
}

#[test]
fn frame_pts_overflow_is_none() {
    let mut buf = AudioBuffer::new(u64::MAX);
    let mut f = AudioFrameData::new();
    f.set_time(i64::MAX - 10);
    buf.push(f);
    assert_eq!(buf.next_frame_pts(0, 960, 960), None);
    let empty = AudioBuffer::new(1);
    assert_eq!(empty.next_frame_pts(i64::MAX, usize::MAX, 960), None);
    assert_eq!(empty.next_frame_pts(i64::MAX, 2, 960), Some(18_446_744_073_709));
}
