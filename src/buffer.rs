use std::collections::VecDeque;
use vstd::prelude::*;

use crate::frame::{AudioFrameData, VideoFrameData};

verus! {

/// Timestamps never go backwards and are never negative (they are
/// microseconds elapsed since the recorder started).
pub open spec fn video_times_ordered(s: Seq<VideoFrameData>) -> bool {
    &&& forall|i: int| 0 <= i < s.len() ==> 0 <= #[trigger] s[i].time
    &&& forall|i: int, j: int| 0 <= i <= j < s.len() ==> #[trigger] s[i].time <= #[trigger] s[j].time
}

pub open spec fn audio_times_ordered(s: Seq<AudioFrameData>) -> bool {
    &&& forall|i: int| 0 <= i < s.len() ==> 0 <= #[trigger] s[i].time
    &&& forall|i: int, j: int| 0 <= i <= j < s.len() ==> #[trigger] s[i].time <= #[trigger] s[j].time
}

/// Time covered by a buffer: newest minus oldest timestamp.
pub open spec fn video_span(s: Seq<VideoFrameData>) -> int {
    if s.len() == 0 {
        0
    } else {
        s.last().time - s[0].time
    }
}

pub open spec fn audio_span(s: Seq<AudioFrameData>) -> int {
    if s.len() == 0 {
        0
    } else {
        s.last().time - s[0].time
    }
}

/// Index of the first keyframe at or after `j`, or `s.len()` if none.
pub open spec fn next_keyframe_from(s: Seq<VideoFrameData>, j: int) -> int
    decreases s.len() - j,
{
    if j >= s.len() {
        s.len() as int
    } else if s[j].keyframe {
        j
    } else {
        next_keyframe_from(s, j + 1)
    }
}

/// A frame may be appended when its timestamp is non-negative and not older
/// than the newest one held.
pub open spec fn video_push_allowed(s: Seq<VideoFrameData>, time: i64) -> bool {
    0 <= time && (s.len() == 0 || s.last().time <= time)
}

pub open spec fn audio_push_allowed(s: Seq<AudioFrameData>, time: i64) -> bool {
    0 <= time && (s.len() == 0 || s.last().time <= time)
}

/// Keyframe-aware eviction: while the span reaches the window and a keyframe
/// stands after the oldest frame, drop everything before that keyframe.
pub open spec fn evict_video(s: Seq<VideoFrameData>, max: int) -> Seq<VideoFrameData>
    decreases s.len(),
{
    let j = next_keyframe_from(s, 1);
    if s.len() >= 2 && video_span(s) >= max && 1 <= j < s.len() {
        evict_video(s.subrange(j, s.len() as int), max)
    } else {
        s
    }
}

/// Audio eviction: drop the oldest frame while the span reaches the window.
pub open spec fn evict_audio(s: Seq<AudioFrameData>, max: int) -> Seq<AudioFrameData>
    decreases s.len(),
{
    if s.len() >= 2 && audio_span(s) >= max {
        evict_audio(s.drop_first(), max)
    } else {
        s
    }
}

/// The oldest frame is a keyframe (or nothing is held).
pub open spec fn keyframe_first(s: Seq<VideoFrameData>) -> bool {
    s.len() == 0 || s[0].keyframe
}

pub proof fn lemma_next_keyframe_bounds(s: Seq<VideoFrameData>, j: int)
    requires
        0 <= j <= s.len(),
    ensures
        j <= next_keyframe_from(s, j) <= s.len(),
        next_keyframe_from(s, j) < s.len() ==> s[next_keyframe_from(s, j)].keyframe,
        forall|k: int| j <= k < next_keyframe_from(s, j) ==> !(#[trigger] s[k]).keyframe,
    decreases s.len() - j,
{
    if j < s.len() && !s[j].keyframe {
        lemma_next_keyframe_bounds(s, j + 1);
    }
}

/// Positions from `i` on that hold a keyframe, in ascending order.
pub open spec fn keyframe_positions(s: Seq<VideoFrameData>, i: int) -> Seq<int>
    decreases s.len() - i,
{
    if i >= s.len() {
        Seq::empty()
    } else if s[i].keyframe {
        seq![i].add(keyframe_positions(s, i + 1))
    } else {
        keyframe_positions(s, i + 1)
    }
}

proof fn lemma_keyframe_positions_bounds(s: Seq<VideoFrameData>, i: int)
    requires
        0 <= i,
    ensures
        forall|k: int|
            0 <= k < keyframe_positions(s, i).len() ==> i <= #[trigger] keyframe_positions(s, i)[k]
                < s.len(),
    decreases s.len() - i,
{
    if i < s.len() {
        lemma_keyframe_positions_bounds(s, i + 1);
        let r = keyframe_positions(s, i + 1);
        if s[i].keyframe {
            assert forall|k: int| 0 <= k < keyframe_positions(s, i).len() implies i
                <= #[trigger] keyframe_positions(s, i)[k] < s.len() by {
                if k > 0 {
                    assert(keyframe_positions(s, i)[k] == r[k - 1]);
                }
            }
        }
    }
}

proof fn lemma_keyframe_positions_push(s: Seq<VideoFrameData>, f: VideoFrameData, i: int)
    requires
        0 <= i <= s.len(),
    ensures
        keyframe_positions(s.push(f), i) == keyframe_positions(s, i).add(
            if f.keyframe {
                seq![s.len() as int]
            } else {
                Seq::<int>::empty()
            },
        ),
    decreases s.len() - i,
{
    let t = s.push(f);
    if i == s.len() {
        assert(t[i] == f);
        assert(keyframe_positions(t, i + 1) == Seq::<int>::empty());
        assert(keyframe_positions(s, i) == Seq::<int>::empty());
        assert(keyframe_positions(t, i) =~= keyframe_positions(s, i).add(
            if f.keyframe {
                seq![s.len() as int]
            } else {
                Seq::<int>::empty()
            },
        ));
    } else {
        assert(t[i] == s[i]);
        lemma_keyframe_positions_push(s, f, i + 1);
        if s[i].keyframe {
            assert(keyframe_positions(t, i) =~= keyframe_positions(s, i).add(
                if f.keyframe {
                    seq![s.len() as int]
                } else {
                    Seq::<int>::empty()
                },
            ));
        }
    }
}

proof fn lemma_keyframe_positions_first(s: Seq<VideoFrameData>, i: int)
    requires
        0 <= i <= s.len(),
    ensures
        ({
            let n = next_keyframe_from(s, i);
            keyframe_positions(s, i) == if n < s.len() {
                seq![n].add(keyframe_positions(s, n + 1))
            } else {
                Seq::<int>::empty()
            }
        }),
    decreases s.len() - i,
{
    if i < s.len() && !s[i].keyframe {
        lemma_keyframe_positions_first(s, i + 1);
    }
}

proof fn lemma_keyframe_positions_shift(s: Seq<VideoFrameData>, j: int, i: int)
    requires
        0 <= j <= s.len(),
        0 <= i <= s.len() - j,
    ensures
        keyframe_positions(s.subrange(j, s.len() as int), i) == keyframe_positions(s, i + j).map_values(
            |x: int| x - j,
        ),
    decreases s.len() - j - i,
{
    let t = s.subrange(j, s.len() as int);
    if i < t.len() {
        assert(t[i] == s[i + j]);
        lemma_keyframe_positions_shift(s, j, i + 1);
        assert(keyframe_positions(t, i) =~= keyframe_positions(s, i + j).map_values(|x: int| x - j));
    } else {
        assert(keyframe_positions(t, i) =~= keyframe_positions(s, i + j).map_values(|x: int| x - j));
    }
}

proof fn lemma_video_suffix_ordered(s: Seq<VideoFrameData>, j: int)
    requires
        video_times_ordered(s),
        0 <= j <= s.len(),
    ensures
        video_times_ordered(s.subrange(j, s.len() as int)),
{
    let t = s.subrange(j, s.len() as int);
    assert forall|a: int, b: int| 0 <= a <= b < t.len() implies #[trigger] t[a].time <= #[trigger] t[b].time by {
        assert(t[a] == s[a + j]);
        assert(t[b] == s[b + j]);
    }
    assert forall|a: int| 0 <= a < t.len() implies 0 <= #[trigger] t[a].time by {
        assert(t[a] == s[a + j]);
    }
}

/// Eviction keeps the timestamps ordered.
pub proof fn lemma_evict_video_ordered(s: Seq<VideoFrameData>, max: int)
    requires
        video_times_ordered(s),
    ensures
        video_times_ordered(evict_video(s, max)),
    decreases s.len(),
{
    let j = next_keyframe_from(s, 1);
    if s.len() >= 2 && video_span(s) >= max && 1 <= j < s.len() {
        lemma_video_suffix_ordered(s, j);
        lemma_evict_video_ordered(s.subrange(j, s.len() as int), max);
    }
}

/// Once the oldest frame is a keyframe, eviction keeps it so: every cut
/// lands on a keyframe.
pub proof fn lemma_evict_video_keyframe_first(s: Seq<VideoFrameData>, max: int)
    requires
        keyframe_first(s),
    ensures
        keyframe_first(evict_video(s, max)),
        s.len() > 0 ==> evict_video(s, max).len() > 0,
    decreases s.len(),
{
    let j = next_keyframe_from(s, 1);
    if s.len() >= 2 && video_span(s) >= max && 1 <= j < s.len() {
        lemma_next_keyframe_bounds(s, 1);
        lemma_evict_video_keyframe_first(s.subrange(j, s.len() as int), max);
    }
}

/// After eviction the span is below the window, unless at most one frame is
/// held or no keyframe follows the oldest frame.
pub proof fn lemma_evict_video_window(s: Seq<VideoFrameData>, max: int)
    ensures
        ({
            let r = evict_video(s, max);
            video_span(r) < max || r.len() <= 1 || next_keyframe_from(r, 1) >= r.len()
        }),
    decreases s.len(),
{
    let j = next_keyframe_from(s, 1);
    if s.len() >= 1 {
        lemma_next_keyframe_bounds(s, 1);
    }
    if s.len() >= 2 && video_span(s) >= max && 1 <= j < s.len() {
        lemma_evict_video_window(s.subrange(j, s.len() as int), max);
    }
}

proof fn lemma_audio_tail_ordered(s: Seq<AudioFrameData>)
    requires
        audio_times_ordered(s),
        s.len() >= 1,
    ensures
        audio_times_ordered(s.drop_first()),
{
    let t = s.drop_first();
    assert forall|a: int, b: int| 0 <= a <= b < t.len() implies #[trigger] t[a].time <= #[trigger] t[b].time by {
        assert(t[a] == s[a + 1]);
        assert(t[b] == s[b + 1]);
    }
    assert forall|a: int| 0 <= a < t.len() implies 0 <= #[trigger] t[a].time by {
        assert(t[a] == s[a + 1]);
    }
}

/// Eviction keeps the timestamps ordered.
pub proof fn lemma_evict_audio_ordered(s: Seq<AudioFrameData>, max: int)
    requires
        audio_times_ordered(s),
    ensures
        audio_times_ordered(evict_audio(s, max)),
    decreases s.len(),
{
    if s.len() >= 2 && audio_span(s) >= max {
        lemma_audio_tail_ordered(s);
        lemma_evict_audio_ordered(s.drop_first(), max);
    }
}

/// After audio eviction the span never exceeds the window.
pub proof fn lemma_evict_audio_window(s: Seq<AudioFrameData>, max: int)
    requires
        0 <= max,
    ensures
        audio_span(evict_audio(s, max)) <= max,
        s.len() > 0 ==> evict_audio(s, max).len() > 0,
    decreases s.len(),
{
    if s.len() >= 2 && audio_span(s) >= max {
        lemma_evict_audio_window(s.drop_first(), max);
    }
}

/// The rolling window of encoded video, oldest first.
pub struct VideoBuffer {
    frames: VecDeque<VideoFrameData>,
    max_time: u64,
    /// Positions of the keyframes after the oldest frame, ascending.
    keyframes: VecDeque<usize>,
}

impl VideoBuffer {
    pub closed spec fn frames(&self) -> Seq<VideoFrameData> {
        self.frames@
    }

    /// Window length in microseconds.
    pub closed spec fn max_time(&self) -> int {
        self.max_time as int
    }

    /// The keyframe index: positions of keyframes after the oldest frame.
    pub closed spec fn keyframe_index(&self) -> Seq<int> {
        self.keyframes@.map_values(|x: usize| x as int)
    }

    pub open spec fn wf(&self) -> bool {
        &&& video_times_ordered(self.frames())
        &&& self.keyframe_index() == keyframe_positions(self.frames(), 1)
    }

    pub fn new(max_time: u64) -> (r: Self)
        ensures
            r.wf(),
            r.frames().len() == 0,
            r.max_time() == max_time,
    {
        let r = VideoBuffer { frames: VecDeque::new(), max_time, keyframes: VecDeque::new() };
        proof {
            assert(r.keyframe_index() =~= keyframe_positions(r.frames(), 1));
        }
        r
    }

    pub fn len(&self) -> (r: usize)
        ensures
            r == self.frames().len(),
    {
        self.frames.len()
    }

    pub fn is_empty(&self) -> (r: bool)
        ensures
            r == (self.frames().len() == 0),
    {
        self.frames.len() == 0
    }

    pub fn max_time_micros(&self) -> (r: u64)
        ensures
            r == self.max_time(),
    {
        self.max_time
    }

    pub fn get(&self, i: usize) -> (r: &VideoFrameData)
        requires
            i < self.frames().len(),
        ensures
            *r == self.frames()[i as int],
    {
        &self.frames[i]
    }

    /// Timestamp of the oldest frame held, if any.
    pub fn oldest_pts(&self) -> (r: Option<i64>)
        ensures
            self.frames().len() == 0 ==> r.is_none(),
            self.frames().len() > 0 ==> r == Some(self.frames()[0].time),
    {
        if self.frames.len() == 0 {
            None
        } else {
            Some(self.frames[0].time)
        }
    }

    /// Timestamp of the newest frame held, if any.
    pub fn newest_pts(&self) -> (r: Option<i64>)
        ensures
            self.frames().len() == 0 ==> r.is_none(),
            self.frames().len() > 0 ==> r == Some(self.frames().last().time),
    {
        let n = self.frames.len();
        if n == 0 {
            None
        } else {
            Some(self.frames[n - 1].time)
        }
    }

    /// Whether a frame with this timestamp may be pushed.
    pub fn can_push(&self, time: i64) -> (r: bool)
        ensures
            r == video_push_allowed(self.frames(), time),
    {
        let n = self.frames.len();
        0 <= time && (n == 0 || self.frames[n - 1].time <= time)
    }

    /// Appends a frame, then evicts whole groups of pictures from the front
    /// while the window is full.
    pub fn push(&mut self, frame: VideoFrameData)
        requires
            old(self).wf(),
            video_push_allowed(old(self).frames(), frame.time),
        ensures
            final(self).wf(),
            final(self).max_time() == old(self).max_time(),
            final(self).frames() == evict_video(old(self).frames().push(frame), old(self).max_time()),
            keyframe_first(old(self).frames()) && (old(self).frames().len() > 0 || frame.keyframe)
                ==> keyframe_first(final(self).frames()) && final(self).frames().len() > 0,
            video_span(final(self).frames()) < final(self).max_time() || final(self).frames().len()
                <= 1 || next_keyframe_from(final(self).frames(), 1) >= final(self).frames().len(),
    {
        let ghost s0 = self.frames@;
        let ghost max = self.max_time as int;
        let ghost fr = frame;
        let n0 = self.frames.len();
        let is_key = frame.keyframe;
        self.frames.push_back(frame);
        if is_key && n0 >= 1 {
            self.keyframes.push_back(n0);
        }
        proof {
            let s = self.frames@;
            assert(s == s0.push(fr));
            if n0 >= 1 {
                lemma_keyframe_positions_push(s0, fr, 1);
            }
            assert(self.keyframes@.map_values(|x: usize| x as int) =~= keyframe_positions(s, 1));
            assert forall|i: int, j: int| 0 <= i <= j < s.len() implies #[trigger] s[i].time <= #[trigger] s[j].time by {
                if j < s0.len() {
                    assert(s[i] == s0[i] && s[j] == s0[j]);
                } else if i < s0.len() {
                    assert(s[i] == s0[i]);
                    assert(s0[i].time <= s0.last().time);
                }
            }
            assert forall|i: int| 0 <= i < s.len() implies 0 <= #[trigger] s[i].time by {
                if i < s0.len() {
                    assert(s[i] == s0[i]);
                }
            }
            if keyframe_first(s0) && (s0.len() > 0 || fr.keyframe) {
                assert(s[0] == if s0.len() > 0 { s0[0] } else { fr });
                lemma_evict_video_keyframe_first(s, max);
            }
            lemma_evict_video_ordered(s, max);
            lemma_evict_video_window(s, max);
        }
        let ghost target = evict_video(self.frames@, max);
        loop
            invariant
                video_times_ordered(self.frames@),
                self.keyframes@.map_values(|x: usize| x as int) == keyframe_positions(self.frames@, 1),
                self.frames@.len() >= 1,
                evict_video(self.frames@, max) == target,
                self.max_time as int == max,
            ensures
                video_times_ordered(self.frames@),
                self.keyframes@.map_values(|x: usize| x as int) == keyframe_positions(self.frames@, 1),
                self.frames@ == target,
                self.max_time as int == max,
            decreases self.frames@.len(),
        {
            let n = self.frames.len();
            if n < 2 {
                break;
            }
            let oldest = self.frames[0].time;
            let newest = self.frames[n - 1].time;
            proof {
                assert(0 <= self.frames@[0].time <= self.frames@[n - 1].time);
            }
            let span = newest - oldest;
            if (span as u64) < self.max_time {
                break;
            }
            proof {
                lemma_keyframe_positions_first(self.frames@, 1);
                lemma_next_keyframe_bounds(self.frames@, 1);
            }
            if self.keyframes.len() == 0 {
                proof {
                    assert(keyframe_positions(self.frames@, 1).len() == 0);
                }
                break;
            }
            let j = self.keyframes[0];
            proof {
                let kp = keyframe_positions(self.frames@, 1);
                assert(kp.len() > 0);
                assert(j as int == kp[0]);
                assert(kp[0] == next_keyframe_from(self.frames@, 1));
            }
            let ghost before = self.frames@;
            let ghost kbefore = self.keyframes@;
            let mut k: usize = 0;
            while k < j
                invariant
                    k <= j < n,
                    n == before.len(),
                    self.frames@ == before.subrange(k as int, n as int),
                    self.max_time as int == max,
                    self.keyframes@ == kbefore,
                decreases j - k,
            {
                self.frames.pop_front();
                k = k + 1;
            }
            proof {
                lemma_video_suffix_ordered(before, j as int);
                lemma_keyframe_positions_shift(before, j as int, 1);
                lemma_keyframe_positions_bounds(before, j as int + 1);
            }
            self.keyframes.pop_front();
            let ghost rest = self.keyframes@;
            proof {
                let whole = keyframe_positions(before, 1);
                assert(kbefore.map_values(|x: usize| x as int) == whole);
                assert(whole == seq![j as int].add(keyframe_positions(before, j as int + 1)));
                assert(rest == kbefore.drop_first());
                let tail_ints = rest.map_values(|x: usize| x as int);
                assert forall|q: int| 0 <= q < rest.len() implies #[trigger] tail_ints[q]
                    == keyframe_positions(before, j as int + 1)[q] by {
                    assert(rest[q] == kbefore[q + 1]);
                    assert(kbefore.map_values(|x: usize| x as int)[q + 1] == whole[q + 1]);
                }
                assert(rest.map_values(|x: usize| x as int) =~= keyframe_positions(before, j as int + 1));
                assert forall|q: int| 0 <= q < rest.len() implies #[trigger] rest[q] > j by {
                    assert(rest.map_values(|x: usize| x as int)[q] == rest[q] as int);
                }
            }
            let m = self.keyframes.len();
            let mut shifted: VecDeque<usize> = VecDeque::new();
            let mut q: usize = 0;
            while q < m
                invariant
                    q <= m,
                    j < n,
                    m == rest.len(),
                    self.keyframes@ == rest,
                    forall|p: int| 0 <= p < rest.len() ==> #[trigger] rest[p] > j,
                    shifted@.len() == q,
                    forall|p: int| 0 <= p < q ==> #[trigger] shifted@[p] == rest[p] - j,
                    self.frames@ == before.subrange(j as int, n as int),
                    self.max_time as int == max,
                decreases m - q,
            {
                let x = self.keyframes[q];
                shifted.push_back(x - j);
                q = q + 1;
            }
            self.keyframes = shifted;
            proof {
                let a = self.keyframes@.map_values(|x: usize| x as int);
                let b = keyframe_positions(before, j as int + 1);
                assert forall|p: int| 0 <= p < a.len() implies a[p] == b.map_values(|x: int| x - j)[p] by {
                    assert(rest.map_values(|x: usize| x as int)[p] == b[p]);
                }
                assert(a =~= keyframe_positions(self.frames@, 1));
            }
        }
    }

    /// Index of the newest keyframe, if any.
    pub fn last_keyframe_index(&self) -> (r: Option<usize>)
        ensures
            r.is_none() == last_keyframe(self.frames()).is_none(),
            r.is_some() ==> last_keyframe(self.frames()) == Some(r.unwrap() as int),
    {
        let mut i: usize = self.frames.len();
        proof {
            assert(self.frames@.take(i as int) =~= self.frames@);
        }
        while i > 0
            invariant
                i <= self.frames@.len(),
                last_keyframe(self.frames()) == last_keyframe(self.frames@.take(i as int)),
            decreases i,
        {
            if self.frames[i - 1].keyframe {
                proof {
                    lemma_last_keyframe_at(self.frames@, i as int);
                }
                return Some(i - 1);
            }
            proof {
                lemma_last_keyframe_skip(self.frames@, i as int);
            }
            i = i - 1;
        }
        None
    }

    pub fn clear(&mut self)
        ensures
            final(self).wf(),
            final(self).frames().len() == 0,
            final(self).max_time() == old(self).max_time(),
    {
        self.frames.clear();
        self.keyframes.clear();
        proof {
            assert(self.keyframe_index() =~= keyframe_positions(self.frames(), 1));
        }
    }
}

/// Index of the newest keyframe in `s`.
pub open spec fn last_keyframe(s: Seq<VideoFrameData>) -> Option<int>
    decreases s.len(),
{
    if s.len() == 0 {
        None
    } else if s.last().keyframe {
        Some(s.len() - 1)
    } else {
        last_keyframe(s.drop_last())
    }
}

proof fn lemma_last_keyframe_at(s: Seq<VideoFrameData>, i: int)
    requires
        1 <= i <= s.len(),
        s[i - 1].keyframe,
    ensures
        last_keyframe(s.take(i)) == Some(i - 1),
{
    assert(s.take(i).last() == s[i - 1]);
}

proof fn lemma_last_keyframe_skip(s: Seq<VideoFrameData>, i: int)
    requires
        1 <= i <= s.len(),
        !s[i - 1].keyframe,
    ensures
        last_keyframe(s.take(i)) == last_keyframe(s.take(i - 1)),
{
    assert(s.take(i).last() == s[i - 1]);
    assert(s.take(i).drop_last() =~= s.take(i - 1));
}

/// The rolling window of encoded audio, oldest first.
pub struct AudioBuffer {
    frames: VecDeque<AudioFrameData>,
    max_time: u64,
}

impl AudioBuffer {
    pub closed spec fn frames(&self) -> Seq<AudioFrameData> {
        self.frames@
    }

    /// Window length in microseconds.
    pub closed spec fn max_time(&self) -> int {
        self.max_time as int
    }

    pub open spec fn wf(&self) -> bool {
        audio_times_ordered(self.frames())
    }

    pub fn new(max_time: u64) -> (r: Self)
        ensures
            r.wf(),
            r.frames().len() == 0,
            r.max_time() == max_time,
    {
        AudioBuffer { frames: VecDeque::new(), max_time }
    }

    pub fn len(&self) -> (r: usize)
        ensures
            r == self.frames().len(),
    {
        self.frames.len()
    }

    pub fn is_empty(&self) -> (r: bool)
        ensures
            r == (self.frames().len() == 0),
    {
        self.frames.len() == 0
    }

    pub fn max_time_micros(&self) -> (r: u64)
        ensures
            r == self.max_time(),
    {
        self.max_time
    }

    pub fn get(&self, i: usize) -> (r: &AudioFrameData)
        requires
            i < self.frames().len(),
        ensures
            *r == self.frames()[i as int],
    {
        &self.frames[i]
    }

    /// Timestamp of the oldest frame held, if any.
    pub fn oldest_pts(&self) -> (r: Option<i64>)
        ensures
            self.frames().len() == 0 ==> r.is_none(),
            self.frames().len() > 0 ==> r == Some(self.frames()[0].time),
    {
        if self.frames.len() == 0 {
            None
        } else {
            Some(self.frames[0].time)
        }
    }

    /// Timestamp of the newest frame held, if any.
    pub fn newest_pts(&self) -> (r: Option<i64>)
        ensures
            self.frames().len() == 0 ==> r.is_none(),
            self.frames().len() > 0 ==> r == Some(self.frames().last().time),
    {
        let n = self.frames.len();
        if n == 0 {
            None
        } else {
            Some(self.frames[n - 1].time)
        }
    }

    /// Whether a frame with this timestamp may be pushed.
    pub fn can_push(&self, time: i64) -> (r: bool)
        ensures
            r == audio_push_allowed(self.frames(), time),
    {
        let n = self.frames.len();
        0 <= time && (n == 0 || self.frames[n - 1].time <= time)
    }

    /// Appends a frame, then drops the oldest frames while the window is full.
    pub fn push(&mut self, frame: AudioFrameData)
        requires
            old(self).wf(),
            audio_push_allowed(old(self).frames(), frame.time),
        ensures
            final(self).wf(),
            final(self).max_time() == old(self).max_time(),
            final(self).frames() == evict_audio(old(self).frames().push(frame), old(self).max_time()),
            audio_span(final(self).frames()) <= final(self).max_time(),
    {
        let ghost s0 = self.frames@;
        let ghost max = self.max_time as int;
        let ghost fr = frame;
        self.frames.push_back(frame);
        proof {
            let s = self.frames@;
            assert(s == s0.push(fr));
            assert forall|i: int, j: int| 0 <= i <= j < s.len() implies #[trigger] s[i].time <= #[trigger] s[j].time by {
                if j < s0.len() {
                    assert(s[i] == s0[i] && s[j] == s0[j]);
                } else if i < s0.len() {
                    assert(s[i] == s0[i]);
                    assert(s0[i].time <= s0.last().time);
                }
            }
            assert forall|i: int| 0 <= i < s.len() implies 0 <= #[trigger] s[i].time by {
                if i < s0.len() {
                    assert(s[i] == s0[i]);
                }
            }
            lemma_evict_audio_ordered(s, max);
            lemma_evict_audio_window(s, max);
        }
        let ghost target = evict_audio(self.frames@, max);
        loop
            invariant
                audio_times_ordered(self.frames@),
                self.frames@.len() >= 1,
                evict_audio(self.frames@, max) == target,
                self.max_time as int == max,
            ensures
                audio_times_ordered(self.frames@),
                self.frames@ == target,
                self.max_time as int == max,
            decreases self.frames@.len(),
        {
            let n = self.frames.len();
            if n < 2 {
                break;
            }
            let oldest = self.frames[0].time;
            let newest = self.frames[n - 1].time;
            proof {
                assert(0 <= self.frames@[0].time <= self.frames@[n - 1].time);
            }
            let span = newest - oldest;
            if (span as u64) < self.max_time {
                break;
            }
            proof {
                lemma_audio_tail_ordered(self.frames@);
            }
            self.frames.pop_front();
        }
    }

    pub fn clear(&mut self)
        ensures
            final(self).wf(),
            final(self).frames().len() == 0,
            final(self).max_time() == old(self).max_time(),
    {
        self.frames.clear();
    }
}

} // verus!
