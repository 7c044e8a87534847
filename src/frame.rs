use vstd::prelude::*;

verus! {

/// One encoded video packet: its bytes, its presentation time in
/// microseconds and whether it can be decoded on its own.
#[derive(Clone, Debug)]
pub struct VideoFrameData {
    pub frame_bytes: Vec<u8>,
    pub time: i64,
    pub keyframe: bool,
}

/// One encoded audio packet: its bytes and its presentation time.
#[derive(Clone, Debug)]
pub struct AudioFrameData {
    pub frame_bytes: Vec<u8>,
    pub time: i64,
}

impl AudioFrameData {
    pub fn new() -> (r: Self)
        ensures
            r.frame_bytes@.len() == 0,
            r.time == 0,
    {
        AudioFrameData { frame_bytes: Vec::new(), time: 0 }
    }

    pub fn set_time(&mut self, time: i64)
        ensures
            final(self).time == time,
            final(self).frame_bytes == old(self).frame_bytes,
    {
        self.time = time;
    }

    pub fn set_frame_bytes(&mut self, frame_bytes: Vec<u8>)
        ensures
            final(self).frame_bytes == frame_bytes,
            final(self).time == old(self).time,
    {
        self.frame_bytes = frame_bytes;
    }
}

impl VideoFrameData {
    pub fn new() -> (r: Self)
        ensures
            r.frame_bytes@.len() == 0,
            r.time == 0,
            !r.keyframe,
    {
        VideoFrameData { frame_bytes: Vec::new(), time: 0, keyframe: false }
    }

    pub fn set_time(&mut self, time: i64)
        ensures
            final(self).time == time,
            final(self).frame_bytes == old(self).frame_bytes,
            final(self).keyframe == old(self).keyframe,
    {
        self.time = time;
    }

    pub fn set_frame_bytes(&mut self, frame_bytes: Vec<u8>)
        ensures
            final(self).frame_bytes == frame_bytes,
            final(self).time == old(self).time,
            final(self).keyframe == old(self).keyframe,
    {
        self.frame_bytes = frame_bytes;
    }

    pub fn set_keyframe(&mut self, keyframe: bool)
        ensures
            final(self).keyframe == keyframe,
            final(self).frame_bytes == old(self).frame_bytes,
            final(self).time == old(self).time,
    {
        self.keyframe = keyframe;
    }
}

} // verus!
