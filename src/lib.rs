//! Rolling in-memory buffers of encoded video and audio for an always-on
//! replay recorder: keyframe-aware eviction, audio regrouping timestamps,
//! export planning and the save/reset transition.

pub mod buffer;
pub mod capture;
pub mod export;
pub mod frame;
pub mod ingest;
pub mod recorder;
