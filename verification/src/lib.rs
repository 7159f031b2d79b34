//! Caving: a small video player.  This crate holds what the player
//! decides and computes: the conversion of decoded YUV 4:2:0 frames into
//! the RGBA texture, the formats the decoder reports, and the per-frame
//! decisions (which file, when a decoding pass ends, when playback is
//! finished, the frame-rate count and the status text).
use vstd::prelude::*;

pub mod color;
pub mod media;
pub mod player;

verus! {

} // verus!
