use vstd::prelude::*;

verus! {

/// Bytes in one 32-bit float sample.
pub const SAMPLE_BYTES: u32 = 4;

/// How many samples of a delivered audio buffer are forwarded: none while
/// video is not yet live, and none when the buffer's chunk claims more
/// samples than its mapped data holds; otherwise the chunk's sample count.
pub fn forwarded_sample_count(video_live: bool, chunk_size_bytes: u32, mapped_samples: usize) -> (r:
    Option<usize>)
    ensures
        r == if !video_live || (chunk_size_bytes / 4) as int > mapped_samples as int {
            None::<usize>
        } else {
            Some((chunk_size_bytes / 4) as usize)
        },
{
    if !video_live {
        return None;
    }
    let n = (chunk_size_bytes / SAMPLE_BYTES) as usize;
    if n > mapped_samples {
        None
    } else {
        Some(n)
    }
}

} // verus!
