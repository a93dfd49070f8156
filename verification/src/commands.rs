//! The decisions behind the plugin's IPC commands: which channel a name
//! selects, what the engine status reports and which headphones a search offers.

use vstd::prelude::*;
use vstd::string::*;
use crate::params::{CHANNEL_CHAT, CHANNEL_GAME, CHANNEL_MEDIA, CHANNEL_MIC, NUM_CHANNELS};
use crate::text::{ascii_lower, chars_eq, chars_of, is_ascii_text, lowercase, to_lowercase};

verus! {

/// Engine status reported to the frontend.
#[derive(Debug)]
pub struct EngineStatus {
    pub running: bool,
    pub sample_rate: u32,
    pub buffer_frames: u32,
    pub output_device: Option<String>,
}

/// The sample rate that the status reports, in Hz.
pub const STATUS_SAMPLE_RATE: u32 = 48000;

/// The buffer size that the status reports, in frames.
pub const STATUS_BUFFER_FRAMES: u32 = 128;

/// The status of an engine that is running or not.
pub fn engine_status(running: bool) -> (s: EngineStatus)
    ensures
        s.running == running,
        s.sample_rate == STATUS_SAMPLE_RATE,
        s.buffer_frames == STATUS_BUFFER_FRAMES,
        s.output_device is None,
{
    EngineStatus {
        running,
        sample_rate: STATUS_SAMPLE_RATE,
        buffer_frames: STATUS_BUFFER_FRAMES,
        output_device: None,
    }
}

/// The channel that a lower-cased channel name selects.
pub open spec fn channel_of(lower: Seq<char>) -> Option<usize> {
    if lower == "game"@ {
        Some(CHANNEL_GAME)
    } else if lower == "chat"@ {
        Some(CHANNEL_CHAT)
    } else if lower == "media"@ {
        Some(CHANNEL_MEDIA)
    } else if lower == "mic"@ {
        Some(CHANNEL_MIC)
    } else {
        None
    }
}

/// Every channel that a name selects is one of the `NUM_CHANNELS` channels of
/// the parameter block, and different names select different channels.
pub proof fn law_channels_in_range(a: Seq<char>, b: Seq<char>)
    ensures
        channel_of(a) matches Some(i) ==> i < NUM_CHANNELS,
        channel_of(a) is Some && channel_of(a) == channel_of(b) ==> a == b,
{
}

/// Maps a channel name, in any case, to its index; an unknown name is refused
/// with a message that quotes it.
pub fn channel_name_to_index(name: &str) -> (r: Result<usize, String>)
    ensures
        match r {
            Ok(i) => channel_of(lowercase(name@)) == Some(i),
            Err(m) => channel_of(lowercase(name@)) is None && m@ == "Unknown channel: "@ + name@,
        },
        is_ascii_text(name@) ==> match r {
            Ok(i) => channel_of(ascii_lower(name@)) == Some(i),
            Err(_) => channel_of(ascii_lower(name@)) is None,
        },
{
    let lower = chars_of(to_lowercase(name).as_str());
    if chars_eq(&lower, &chars_of("game")) {
        Ok(CHANNEL_GAME)
    } else if chars_eq(&lower, &chars_of("chat")) {
        Ok(CHANNEL_CHAT)
    } else if chars_eq(&lower, &chars_of("media")) {
        Ok(CHANNEL_MEDIA)
    } else if chars_eq(&lower, &chars_of("mic")) {
        Ok(CHANNEL_MIC)
    } else {
        Err(String::from_str("Unknown channel: ").concat(name))
    }
}

/// The headphones that a search offers: the same three models whatever the query.
pub fn search_headphones(query: String) -> (r: Result<Vec<String>, String>)
    ensures
        r matches Ok(v) && v@.len() == 3 && v@[0]@ == "Sennheiser HD 600"@ && v@[1]@
            == "Beyerdynamic DT 990 Pro"@ && v@[2]@ == "AKG K712 Pro"@,
{
    let mut v: Vec<String> = Vec::new();
    v.push(String::from_str("Sennheiser HD 600"));
    v.push(String::from_str("Beyerdynamic DT 990 Pro"));
    v.push(String::from_str("AKG K712 Pro"));
    Ok(v)
}

} // verus!
