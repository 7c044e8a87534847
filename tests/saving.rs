use instant_replay::export::{plan_export, ExportError};
use instant_replay::recorder::Recorder;

fn recorder_with(video: &[(i64, bool)], audio: &[i64]) -> Recorder {
    let mut r = Recorder::new(10);
    for &(t, k) in video {
        assert!(r.on_video_packet(vec![1], t, k));
    }
    for &t in audio {
        assert!(r.on_audio_packet(vec![2], t));
    }
    r
}

#[test]
fn export_of_empty_buffers_has_no_oldest_pts() {
    let r = Recorder::new(10);
    assert_eq!(r.plan_export().err(), Some(ExportError::NoOldestVideoPts));
    assert_eq!(plan_export(&r.video, &r.audio).err(), Some(ExportError::NoOldestVideoPts));
}

#[test]
fn export_without_audio_fails() {
    let r = recorder_with(&[(0, true)], &[]);
    assert_eq!(r.plan_export().err(), Some(ExportError::NoOldestAudioPts));
}

#[test]
fn export_without_keyframe_fails() {
    let r = recorder_with(&[(0, false), (10, false)], &[5]);
    assert_eq!(r.plan_export().err(), Some(ExportError::NoKeyframe));
}

#[test]
fn export_plan_is_exact() {
    let r = recorder_with(
        &[(1000, true), (2000, false), (3000, true), (4000, false)],
        &[1500, 2500, 3000, 3500],
    );
    let job = r.plan_export().ok().unwrap();
    assert_eq!(job.first_pts_offset, 1000);
    assert_eq!(job.audio_offset, 1500);
    assert_eq!(job.last_video_pts, 3000);
    assert_eq!(job.video_pts, vec![0, 1000, 2000]);
    assert_eq!(job.audio_pts, vec![0, 1000, 1500]);
}

#[test]
fn exported_audio_never_outlasts_video() {
    let r = recorder_with(
        &[(0, true), (100, false), (200, true), (300, false), (400, true), (500, false)],
        &[50, 150, 250, 350, 450, 550],
    );
    let job = r.plan_export().ok().unwrap();
    let last_video = *job.video_pts.last().unwrap();
    assert_eq!(job.video_pts[0], 0);
    assert_eq!(last_video, 400);
    assert_eq!(job.audio_pts.len(), 4);
    for p in &job.audio_pts {
        assert!(*p <= last_video);
    }
}

#[test]
fn failed_save_leaves_buffers_for_retry() {
    let mut r = recorder_with(&[(0, true), (10, false)], &[]);
    let before_video: Vec<(Vec<u8>, i64, bool)> = (0..r.video.len())
        .map(|i| {
            let f = r.video.get(i);
            (f.frame_bytes.clone(), f.time, f.keyframe)
        })
        .collect();
    assert!(r.plan_export().is_err());
    r.finish_save(false);
    assert_eq!(r.video.len(), 2);
    for (i, (bytes, time, key)) in before_video.iter().enumerate() {
        let f = r.video.get(i);
        assert_eq!(&f.frame_bytes, bytes);
        assert_eq!(f.time, *time);
        assert_eq!(f.keyframe, *key);
    }
    assert!(r.on_audio_packet(vec![3], 5));
    assert!(r.plan_export().is_ok());
}

#[test]
fn save_then_late_frames_start_a_fresh_epoch() {
    let mut r = Recorder::new(10);
    for i in 0..60i64 {
        assert!(r.on_video_packet(vec![0], i * 33_000, i % 30 == 0));
        assert!(r.on_audio_packet(vec![0], i * 33_000 + 1));
    }
    let job = r.plan_export().ok().unwrap();
    assert_eq!(job.last_video_pts, 30 * 33_000);
    assert_eq!(job.video_pts.len(), 31);
    r.finish_save(true);
    assert!(r.video.is_empty());
    assert!(r.audio.is_empty());
    // the frames that were still in flight arrive after the reset
    for i in 0..50i64 {
        assert!(r.on_video_packet(vec![0], i * 33_000, i % 30 == 0));
    }
    assert_eq!(r.video.len(), 50);
    assert_eq!(r.video.oldest_pts(), Some(0));
    assert_eq!(job.last_video_pts, 30 * 33_000);
}

#[test]
fn out_of_order_packets_are_refused() {
    let mut r = recorder_with(&[(100, true)], &[100]);
    assert!(!r.on_video_packet(vec![1], 99, false));
    assert!(!r.on_audio_packet(vec![1], 50));
    assert_eq!(r.video.len(), 1);
    assert_eq!(r.audio.len(), 1);
}

#[test]
fn window_is_seconds_in_micros() {
    let r = Recorder::new(30);
    assert_eq!(r.video.max_time_micros(), 30_000_000);
    assert_eq!(r.audio.max_time_micros(), 30_000_000);
}
