//! Silence removal for audio and video media: PCM decoding and peak
//! envelopes, RMS silence detection, excision planning, batch rendering
//! commands and byte-range serving of local media.

pub mod cache;
pub mod detect;
pub mod error;
pub mod media;
pub mod naming;
pub mod paths;
pub mod pcm;
pub mod plan;
pub mod probe;
pub mod progress;
pub mod render;
pub mod system;
pub mod text;
pub mod upload;
pub mod wav;

use vstd::prelude::*;

verus! {

} // verus!
