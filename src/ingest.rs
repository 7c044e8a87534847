use vstd::prelude::*;

use crate::buffer::{audio_push_allowed, AudioBuffer};
use crate::frame::AudioFrameData;

verus! {

/// Why a batch of raw samples was refused before it reached a buffer.
#[derive(Debug, PartialEq, Eq, Structural)]
pub enum IngestError {
    /// The sample count is not a multiple of the channel count.
    InvalidData,
}

/// How many whole encoder frames a batch of interleaved samples yields, or
/// `InvalidData` when the batch does not split evenly into channels.
pub fn audio_frame_count(total_samples: usize, n_channels: usize, frame_size: usize) -> (r: Result<
    usize,
    IngestError,
>)
    requires
        n_channels > 0,
        frame_size > 0,
    ensures
        r == if total_samples % n_channels != 0 {
            Err(IngestError::InvalidData)
        } else {
            Ok(total_samples / frame_size)
        },
{
    if total_samples % n_channels != 0 {
        Err(IngestError::InvalidData)
    } else {
        Ok(total_samples / frame_size)
    }
}

/// Timestamp of the next regrouped audio frame: one frame size after the
/// newest buffered frame, or, for an empty buffer, derived from the capture
/// time of the batch.
pub open spec fn audio_frame_pts(
    s: Seq<AudioFrameData>,
    time_micro: int,
    total_samples: int,
    frame_size: int,
) -> int {
    if s.len() > 0 {
        s.last().time + frame_size
    } else {
        time_micro * total_samples / 1_000_000
    }
}

pub open spec fn fits_i64(x: int) -> bool {
    i64::MIN <= x <= i64::MAX
}

impl AudioBuffer {
    /// The timestamp the next regrouped frame gets, or `None` when it does
    /// not fit in an `i64`.
    pub fn next_frame_pts(&self, time_micro: i64, total_samples: usize, frame_size: usize) -> (r:
        Option<i64>)
        requires
            self.wf(),
            time_micro >= 0,
            frame_size > 0,
        ensures
            ({
                let p = audio_frame_pts(
                    self.frames(),
                    time_micro as int,
                    total_samples as int,
                    frame_size as int,
                );
                &&& fits_i64(p) ==> r == Some(p as i64)
                &&& !fits_i64(p) ==> r.is_none()
            }),
            r.is_some() ==> audio_push_allowed(self.frames(), r.unwrap()),
    {
        match self.newest_pts() {
            Some(newest) => {
                let next: i128 = newest as i128 + frame_size as i128;
                if next > i64::MAX as i128 {
                    None
                } else {
                    Some(next as i64)
                }
            },
            None => {
                let t = time_micro as i128;
                let n = total_samples as i128;
                proof {
                    assert(0 <= t * n <= 0x7fff_ffff_ffff_ffff * 0xffff_ffff_ffff_ffff) by (nonlinear_arith)
                        requires
                            0 <= t <= 0x7fff_ffff_ffff_ffff,
                            0 <= n <= 0xffff_ffff_ffff_ffff,
                    ;
                }
                let first: i128 = t * n / 1_000_000;
                if first > i64::MAX as i128 {
                    None
                } else {
                    Some(first as i64)
                }
            },
        }
    }
}

} // verus!
