use vstd::prelude::*;

use crate::buffer::{last_keyframe, AudioBuffer, VideoBuffer, audio_times_ordered, video_times_ordered};
use crate::frame::{AudioFrameData, VideoFrameData};

verus! {

/// Why an export could not be planned. Each is detected before any output
/// is created.
#[derive(Debug, PartialEq, Eq, Structural)]
pub enum ExportError {
    /// The video buffer is empty.
    NoOldestVideoPts,
    /// The audio buffer is empty.
    NoOldestAudioPts,
    /// The video buffer holds no keyframe to end the clip on.
    NoKeyframe,
}

/// What one save writes: the first `video_pts.len()` video frames and the
/// first `audio_pts.len()` audio frames of the frozen buffers, with their
/// timestamps rebased to start at zero.
pub struct ExportJob {
    pub video_pts: Vec<i64>,
    pub audio_pts: Vec<i64>,
    /// Oldest video timestamp; video is rebased against it.
    pub first_pts_offset: i64,
    /// Oldest audio timestamp; audio is rebased against it.
    pub audio_offset: i64,
    /// Timestamp, before rebasing, of the last exported video frame.
    pub last_video_pts: i64,
}

/// Index of the first audio frame from `j` on whose timestamp is past
/// `limit`, or `a.len()` if none.
pub open spec fn first_audio_after(a: Seq<AudioFrameData>, limit: int, j: int) -> int
    decreases a.len() - j,
{
    if j >= a.len() {
        a.len() as int
    } else if a[j].time > limit {
        j
    } else {
        first_audio_after(a, limit, j + 1)
    }
}

/// Number of video frames exported: up to and including the newest keyframe.
pub open spec fn video_export_len(v: Seq<VideoFrameData>) -> int {
    match last_keyframe(v) {
        Some(k) => k + 1,
        None => 0,
    }
}

/// Number of audio frames exported: those before the first one that would
/// outlast the newest exported video frame.
pub open spec fn audio_export_len(v: Seq<VideoFrameData>, a: Seq<AudioFrameData>) -> int {
    first_audio_after(a, v[video_export_len(v) - 1].time as int, 0)
}

/// `job` is the export of the frozen buffers `v` and `a`.
pub open spec fn is_export_of(job: ExportJob, v: Seq<VideoFrameData>, a: Seq<AudioFrameData>) -> bool {
    let nv = video_export_len(v);
    let na = audio_export_len(v, a);
    &&& job.first_pts_offset == v[0].time
    &&& job.audio_offset == a[0].time
    &&& job.last_video_pts == v[nv - 1].time
    &&& job.video_pts@.len() == nv
    &&& forall|i: int| 0 <= i < nv ==> #[trigger] job.video_pts@[i] == v[i].time - v[0].time
    &&& job.audio_pts@.len() == na
    &&& forall|i: int| 0 <= i < na ==> #[trigger] job.audio_pts@[i] == a[i].time - a[0].time
}

/// The outcome of planning an export of `v` and `a`, short of the job itself.
pub open spec fn export_error(v: Seq<VideoFrameData>, a: Seq<AudioFrameData>) -> Option<ExportError> {
    if v.len() == 0 {
        Some(ExportError::NoOldestVideoPts)
    } else if a.len() == 0 {
        Some(ExportError::NoOldestAudioPts)
    } else if last_keyframe(v).is_none() {
        Some(ExportError::NoKeyframe)
    } else {
        None
    }
}

pub proof fn lemma_last_keyframe_bounds(v: Seq<VideoFrameData>)
    ensures
        match last_keyframe(v) {
            Some(k) => 0 <= k < v.len() && v[k].keyframe,
            None => forall|i: int| 0 <= i < v.len() ==> !(#[trigger] v[i]).keyframe,
        },
    decreases v.len(),
{
    if v.len() > 0 && !v.last().keyframe {
        let w = v.drop_last();
        lemma_last_keyframe_bounds(w);
        match last_keyframe(w) {
            Some(k) => {
                assert(v[k] == w[k]);
            },
            None => {
                assert forall|i: int| 0 <= i < v.len() implies !(#[trigger] v[i]).keyframe by {
                    if i < v.len() - 1 {
                        assert(v[i] == w[i]);
                    }
                }
            },
        }
    }
}

pub proof fn lemma_first_audio_after_bounds(a: Seq<AudioFrameData>, limit: int, j: int)
    requires
        0 <= j <= a.len(),
    ensures
        j <= first_audio_after(a, limit, j) <= a.len(),
        forall|k: int| j <= k < first_audio_after(a, limit, j) ==> (#[trigger] a[k]).time <= limit,
        first_audio_after(a, limit, j) < a.len() ==> a[first_audio_after(a, limit, j)].time > limit,
    decreases a.len() - j,
{
    if j < a.len() && a[j].time <= limit {
        lemma_first_audio_after_bounds(a, limit, j + 1);
    }
}

proof fn lemma_first_audio_after_is(a: Seq<AudioFrameData>, limit: int, j: int, e: int)
    requires
        0 <= j <= e <= a.len(),
        forall|k: int| j <= k < e ==> (#[trigger] a[k]).time <= limit,
        e == a.len() || a[e].time > limit,
    ensures
        first_audio_after(a, limit, j) == e,
    decreases e - j,
{
    if j < e {
        lemma_first_audio_after_is(a, limit, j + 1, e);
    }
}

/// The first exported video frame is rebased to timestamp zero.
pub proof fn lemma_export_starts_at_zero(job: ExportJob, v: Seq<VideoFrameData>, a: Seq<AudioFrameData>)
    requires
        export_error(v, a).is_none(),
        is_export_of(job, v, a),
    ensures
        job.video_pts@.len() > 0,
        job.video_pts@[0] == 0,
{
    lemma_last_keyframe_bounds(v);
}

/// No exported audio frame's rebased timestamp passes that of the last
/// exported video frame, provided audio was not captured before the oldest
/// video frame.
pub proof fn lemma_export_audio_clipped(job: ExportJob, v: Seq<VideoFrameData>, a: Seq<AudioFrameData>)
    requires
        video_times_ordered(v),
        audio_times_ordered(a),
        export_error(v, a).is_none(),
        is_export_of(job, v, a),
        a[0].time >= v[0].time,
    ensures
        job.video_pts@.len() > 0,
        forall|i: int| 0 <= i < job.audio_pts@.len() ==> #[trigger] job.audio_pts@[i] <= job.video_pts@.last(),
{
    lemma_last_keyframe_bounds(v);
    let nv = video_export_len(v);
    lemma_first_audio_after_bounds(a, v[nv - 1].time as int, 0);
    assert forall|i: int| 0 <= i < job.audio_pts@.len() implies #[trigger] job.audio_pts@[i] <= job.video_pts@.last() by {
        assert(a[i].time <= v[nv - 1].time);
        assert(job.video_pts@.last() == job.video_pts@[nv - 1]);
    }
}

/// Plans the export of the frozen buffers: which frames are written and with
/// which rebased timestamps. Fails, before anything is written, on an empty
/// buffer or on video without a keyframe.
pub fn plan_export(video: &VideoBuffer, audio: &AudioBuffer) -> (r: Result<ExportJob, ExportError>)
    requires
        video.wf(),
        audio.wf(),
    ensures
        match export_error(video.frames(), audio.frames()) {
            Some(e) => r == Err::<ExportJob, ExportError>(e),
            None => r.is_ok() && is_export_of(r.unwrap(), video.frames(), audio.frames()),
        },
{
    let ghost v = video.frames();
    let ghost a = audio.frames();
    let first_pts_offset = match video.oldest_pts() {
        Some(t) => t,
        None => {
            return Err(ExportError::NoOldestVideoPts);
        },
    };
    let audio_offset = match audio.oldest_pts() {
        Some(t) => t,
        None => {
            return Err(ExportError::NoOldestAudioPts);
        },
    };
    let last = match video.last_keyframe_index() {
        Some(k) => k,
        None => {
            return Err(ExportError::NoKeyframe);
        },
    };
    proof {
        lemma_last_keyframe_bounds(v);
    }
    let nv = video.len();
    let last_video_pts = video.get(last).time;
    let mut video_pts: Vec<i64> = Vec::new();
    let mut i: usize = 0;
    while i <= last
        invariant
            last < nv,
            nv == v.len(),
            v == video.frames(),
            video_times_ordered(v),
            first_pts_offset == v[0].time,
            i <= last + 1,
            video_pts@.len() == i,
            forall|k: int| 0 <= k < i ==> #[trigger] video_pts@[k] == v[k].time - v[0].time,
        decreases last + 1 - i,
    {
        let t = video.get(i).time;
        proof {
            assert(0 <= v[0].time <= v[i as int].time);
        }
        video_pts.push(t - first_pts_offset);
        i = i + 1;
    }
    let mut audio_pts: Vec<i64> = Vec::new();
    let n = audio.len();
    let mut j: usize = 0;
    while j < n && audio.get(j).time <= last_video_pts
        invariant
            n == a.len(),
            a == audio.frames(),
            audio_times_ordered(a),
            audio_offset == a[0].time,
            j <= n,
            audio_pts@.len() == j,
            forall|k: int| 0 <= k < j ==> (#[trigger] a[k]).time <= last_video_pts,
            forall|k: int| 0 <= k < j ==> #[trigger] audio_pts@[k] == a[k].time - a[0].time,
        decreases n - j,
    {
        let t = audio.get(j).time;
        proof {
            assert(0 <= a[0].time <= a[j as int].time);
        }
        audio_pts.push(t - audio_offset);
        j = j + 1;
    }
    proof {
        lemma_first_audio_after_is(a, last_video_pts as int, 0, j as int);
    }
    Ok(ExportJob { video_pts, audio_pts, first_pts_offset, audio_offset, last_video_pts })
}

} // verus!
