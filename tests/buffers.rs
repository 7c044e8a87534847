use instant_replay::buffer::{AudioBuffer, VideoBuffer};
use instant_replay::frame::{AudioFrameData, VideoFrameData};

fn video_frame(time: i64, keyframe: bool) -> VideoFrameData {
    let mut f = VideoFrameData::new();
    f.set_time(time);
    f.set_keyframe(keyframe);
    f.set_frame_bytes(vec![(time % 251) as u8]);
    f
}

fn audio_frame(time: i64) -> AudioFrameData {
    let mut f = AudioFrameData::new();
    f.set_time(time);
    f.set_frame_bytes(vec![1, 2, 3]);
    f
}

#[test]
fn frame_setters_keep_other_fields() {
    let mut v = VideoFrameData::new();
    assert_eq!(v.time, 0);
    assert!(v.frame_bytes.is_empty());
    assert!(!v.keyframe);
    v.set_time(42);
    v.set_frame_bytes(vec![9, 8]);
    v.set_keyframe(true);
    assert_eq!(v.time, 42);
    assert_eq!(v.frame_bytes, vec![9, 8]);
    assert!(v.keyframe);

    let mut a = AudioFrameData::new();
    a.set_frame_bytes(vec![7]);
    a.set_time(5);
    assert_eq!(a.time, 5);
    assert_eq!(a.frame_bytes, vec![7]);
}

#[test]
fn gop_30_window_ten_seconds_stays_bounded() {
    let mut buf = VideoBuffer::new(10_000_000);
    let mut max_len = 0;
    for i in 0..400i64 {
        let time = i * 33_000;
        assert!(buf.can_push(time));
        buf.push(video_frame(time, i % 30 == 0));
        assert!(buf.get(0).keyframe, "front is a keyframe after frame {}", i);
        let span = buf.newest_pts().unwrap() - buf.oldest_pts().unwrap();
        assert!(span < 10_000_000);
        assert!(span <= 11_000_000);
        if buf.len() > max_len {
            max_len = buf.len();
        }
    }
    assert_eq!(max_len, 304);
    assert_eq!(buf.len(), 280);
    assert_eq!(buf.oldest_pts(), Some(120 * 33_000));
    assert_eq!(buf.newest_pts(), Some(399 * 33_000));
}

#[test]
fn video_eviction_waits_for_a_keyframe() {
    let mut buf = VideoBuffer::new(100);
    buf.push(video_frame(0, true));
    buf.push(video_frame(60, false));
    buf.push(video_frame(120, false));
    buf.push(video_frame(180, false));
    // the window is over-full but no later keyframe exists yet
    assert_eq!(buf.len(), 4);
    buf.push(video_frame(240, true));
    // cut lands on the new keyframe, which is then the newest frame
    assert_eq!(buf.len(), 1);
    assert_eq!(buf.oldest_pts(), Some(240));
    assert!(buf.get(0).keyframe);
}

#[test]
fn video_eviction_cuts_at_first_later_keyframe() {
    let mut buf = VideoBuffer::new(100);
    buf.push(video_frame(0, true));
    buf.push(video_frame(30, false));
    buf.push(video_frame(60, true));
    buf.push(video_frame(90, false));
    assert_eq!(buf.len(), 4);
    buf.push(video_frame(120, false));
    assert_eq!(buf.len(), 3);
    assert_eq!(buf.oldest_pts(), Some(60));
    assert_eq!(buf.last_keyframe_index(), Some(0));
}

#[test]
fn leading_non_keyframe_is_kept() {
    let mut buf = VideoBuffer::new(1_000);
    buf.push(video_frame(0, false));
    buf.push(video_frame(10, true));
    assert_eq!(buf.len(), 2);
    assert!(!buf.get(0).keyframe);
    assert_eq!(buf.last_keyframe_index(), Some(1));
}

#[test]
fn video_refuses_out_of_order_timestamps() {
    let mut buf = VideoBuffer::new(1_000);
    assert!(!buf.can_push(-1));
    buf.push(video_frame(50, true));
    assert!(!buf.can_push(49));
    assert!(buf.can_push(50));
    assert!(buf.can_push(51));
}

#[test]
fn audio_eviction_trims_to_window() {
    let mut buf = AudioBuffer::new(100);
    for t in [0i64, 40, 80] {
        buf.push(audio_frame(t));
    }
    assert_eq!(buf.len(), 3);
    buf.push(audio_frame(120));
    assert_eq!(buf.len(), 3);
    assert_eq!(buf.oldest_pts(), Some(40));
    buf.push(audio_frame(400));
    assert_eq!(buf.len(), 1);
    assert_eq!(buf.oldest_pts(), Some(400));
}

#[test]
fn audio_window_never_exceeded() {
    let mut buf = AudioBuffer::new(1_000);
    for i in 0..200i64 {
        buf.push(audio_frame(i * 37));
        let span = buf.newest_pts().unwrap() - buf.oldest_pts().unwrap();
        assert!(span <= 1_000);
        assert!(span < 1_000 || buf.len() <= 1);
    }
}

#[test]
fn clear_empties_buffers() {
    let mut v = VideoBuffer::new(10);
    v.push(video_frame(1, true));
    v.clear();
    assert!(v.is_empty());
    assert_eq!(v.oldest_pts(), None);
    assert_eq!(v.max_time_micros(), 10);
    let mut a = AudioBuffer::new(10);
    a.push(audio_frame(1));
    a.clear();
    assert!(a.is_empty());
    assert_eq!(a.newest_pts(), None);
}
