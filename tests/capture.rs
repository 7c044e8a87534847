use instant_replay::capture::forwarded_sample_count;

#[test]
fn audio_before_video_is_live_is_dropped() {
    assert_eq!(forwarded_sample_count(false, 4096, 1024), None);
}

#[test]
fn chunk_size_gives_sample_count() {
    assert_eq!(forwarded_sample_count(true, 4096, 1024), Some(1024));
    assert_eq!(forwarded_sample_count(true, 4000, 2048), Some(1000));
    assert_eq!(forwarded_sample_count(true, 0, 0), Some(0));
}

#[test]
fn chunk_larger_than_mapped_data_is_dropped() {
    assert_eq!(forwarded_sample_count(true, 4100, 1024), None);
}
