//! The shape of the mixer's parameter block: how many EQ bands and channels
//! there are, and which index each channel has.

use vstd::prelude::*;

verus! {

/// Bands of the parametric EQ.
pub const MAX_EQ_BANDS: usize = 10;

/// Mixer channels: game, chat, media and microphone.
pub const NUM_CHANNELS: usize = 4;

pub const CHANNEL_GAME: usize = 0;

pub const CHANNEL_CHAT: usize = 1;

pub const CHANNEL_MEDIA: usize = 2;

pub const CHANNEL_MIC: usize = 3;

} // verus!
