use vstd::prelude::*;

use crate::buffer::{
    audio_push_allowed, evict_audio, evict_video, video_push_allowed, AudioBuffer, VideoBuffer,
};
use crate::export::{plan_export, ExportError, ExportJob};
use crate::frame::{AudioFrameData, VideoFrameData};

verus! {

/// Microseconds in one second.
pub const MICROS_PER_SECOND: u64 = 1_000_000;

/// The two rolling buffers that the capture loop fills and a save drains.
pub struct Recorder {
    pub video: VideoBuffer,
    pub audio: AudioBuffer,
}

impl Recorder {
    pub open spec fn wf(&self) -> bool {
        &&& self.video.wf()
        &&& self.audio.wf()
    }

    /// Empty buffers holding a window of `buffer_seconds` seconds each.
    pub fn new(buffer_seconds: u32) -> (r: Self)
        ensures
            r.wf(),
            r.video.frames().len() == 0,
            r.audio.frames().len() == 0,
            r.video.max_time() == buffer_seconds as int * 1_000_000,
            r.audio.max_time() == buffer_seconds as int * 1_000_000,
    {
        let max_time = buffer_seconds as u64 * MICROS_PER_SECOND;
        Recorder { video: VideoBuffer::new(max_time), audio: AudioBuffer::new(max_time) }
    }

    /// Stores an encoded video packet. A packet whose timestamp is negative or
    /// older than the newest one held is refused and nothing changes.
    pub fn on_video_packet(&mut self, frame_bytes: Vec<u8>, time: i64, keyframe: bool) -> (accepted:
        bool)
        requires
            old(self).wf(),
        ensures
            final(self).wf(),
            accepted == video_push_allowed(old(self).video.frames(), time),
            accepted ==> final(self).video.frames() == evict_video(
                old(self).video.frames().push((VideoFrameData { frame_bytes, time, keyframe })),
                old(self).video.max_time(),
            ),
            !accepted ==> final(self).video.frames() == old(self).video.frames(),
            final(self).video.max_time() == old(self).video.max_time(),
            final(self).audio == old(self).audio,
    {
        if !self.video.can_push(time) {
            return false;
        }
        self.video.push(VideoFrameData { frame_bytes, time, keyframe });
        true
    }

    /// Stores an encoded audio packet. A packet whose timestamp is negative or
    /// older than the newest one held is refused and nothing changes.
    pub fn on_audio_packet(&mut self, frame_bytes: Vec<u8>, time: i64) -> (accepted: bool)
        requires
            old(self).wf(),
        ensures
            final(self).wf(),
            accepted == audio_push_allowed(old(self).audio.frames(), time),
            accepted ==> final(self).audio.frames() == evict_audio(
                old(self).audio.frames().push((AudioFrameData { frame_bytes, time })),
                old(self).audio.max_time(),
            ),
            !accepted ==> final(self).audio.frames() == old(self).audio.frames(),
            final(self).audio.max_time() == old(self).audio.max_time(),
            final(self).video == old(self).video,
    {
        if !self.audio.can_push(time) {
            return false;
        }
        self.audio.push(AudioFrameData { frame_bytes, time });
        true
    }

    /// Plans the export of what both buffers hold now; the buffers are only
    /// read.
    pub fn plan_export(&self) -> (r: Result<ExportJob, ExportError>)
        requires
            self.wf(),
        ensures
            match crate::export::export_error(self.video.frames(), self.audio.frames()) {
                Some(e) => r == Err::<ExportJob, ExportError>(e),
                None => r.is_ok() && crate::export::is_export_of(
                    r.unwrap(),
                    self.video.frames(),
                    self.audio.frames(),
                ),
            },
    {
        plan_export(&self.video, &self.audio)
    }

    /// Ends a save. After a written export both buffers start over empty;
    /// after a failed one they are left exactly as they were, so the next
    /// trigger retries on the same content.
    pub fn finish_save(&mut self, exported: bool)
        requires
            old(self).wf(),
        ensures
            final(self).wf(),
            exported ==> final(self).video.frames().len() == 0 && final(self).audio.frames().len()
                == 0,
            final(self).video.max_time() == old(self).video.max_time(),
            final(self).audio.max_time() == old(self).audio.max_time(),
            !exported ==> *final(self) == *old(self),
    {
        if exported {
            self.video.clear();
            self.audio.clear();
        }
    }
}

} // verus!
