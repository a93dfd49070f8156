//! The decisions of the WASAPI stream threads: how the render stream is set
//! up, and how much of the device buffer one render pass fills. The device
//! calls are made by the caller, which reports each outcome back.

use vstd::prelude::*;

verus! {

/// How long a render pass waits for the device's buffer event, in ms.
pub const RENDER_WAIT_MS: u32 = 1000;

/// The buffer that the loopback capture stream asks for, in 100 ns units (1 s).
pub const CAPTURE_BUFFER_HNS: i64 = 10_000_000;

/// The pause between two capture polls, in ms.
pub const CAPTURE_POLL_MS: u64 = 10;

/// `WAVE_FORMAT_IEEE_FLOAT`.
pub const WAVE_FORMAT_IEEE_FLOAT: u16 = 3;

/// `WAVE_FORMAT_EXTENSIBLE`.
pub const WAVE_FORMAT_EXTENSIBLE: u16 = 65534;

/// The step of the render stream's setup that is due.
#[derive(Debug, Clone, Copy, PartialEq, Eq, Structural)]
pub enum RenderInit {
    /// Ask the client for its low-latency interface (`IAudioClient3`).
    LowLatencyClient,
    /// Query the shared-mode engine periods.
    EnginePeriod,
    /// Initialize a shared stream at the minimum period.
    SharedStream,
    /// Initialize a plain shared-mode stream.
    SharedMode,
    /// The stream is set up.
    Ready,
    /// The setup failed.
    Failed,
}

/// The step after `stage`, given whether the call that `stage` makes succeeded:
/// any failure on the low-latency path falls back to a plain shared-mode
/// stream, and only the failure of that ends the setup.
pub open spec fn next_init(stage: RenderInit, ok: bool) -> RenderInit {
    match stage {
        RenderInit::LowLatencyClient => if ok {
            RenderInit::EnginePeriod
        } else {
            RenderInit::SharedMode
        },
        RenderInit::EnginePeriod => if ok {
            RenderInit::SharedStream
        } else {
            RenderInit::SharedMode
        },
        RenderInit::SharedStream => if ok {
            RenderInit::Ready
        } else {
            RenderInit::SharedMode
        },
        RenderInit::SharedMode => if ok {
            RenderInit::Ready
        } else {
            RenderInit::Failed
        },
        RenderInit::Ready => RenderInit::Ready,
        RenderInit::Failed => RenderInit::Failed,
    }
}

/// The setup has ended.
pub open spec fn init_done(stage: RenderInit) -> bool {
    stage == RenderInit::Ready || stage == RenderInit::Failed
}

/// How many device calls the setup makes at most from `stage` on.
pub open spec fn init_steps_left(stage: RenderInit) -> nat {
    match stage {
        RenderInit::LowLatencyClient => 4,
        RenderInit::EnginePeriod => 3,
        RenderInit::SharedStream => 2,
        RenderInit::SharedMode => 1,
        RenderInit::Ready => 0,
        RenderInit::Failed => 0,
    }
}

/// The first step of the setup.
pub fn render_init_start() -> (s: RenderInit)
    ensures
        s == RenderInit::LowLatencyClient,
{
    RenderInit::LowLatencyClient
}

/// The step after `stage`, given the outcome of its call.
pub fn next_render_init(stage: RenderInit, ok: bool) -> (n: RenderInit)
    ensures
        n == next_init(stage, ok),
{
    match stage {
        RenderInit::LowLatencyClient => if ok {
            RenderInit::EnginePeriod
        } else {
            RenderInit::SharedMode
        },
        RenderInit::EnginePeriod => if ok {
            RenderInit::SharedStream
        } else {
            RenderInit::SharedMode
        },
        RenderInit::SharedStream => if ok {
            RenderInit::Ready
        } else {
            RenderInit::SharedMode
        },
        RenderInit::SharedMode => if ok {
            RenderInit::Ready
        } else {
            RenderInit::Failed
        },
        RenderInit::Ready => RenderInit::Ready,
        RenderInit::Failed => RenderInit::Failed,
    }
}

/// Every call of the setup brings it closer to its end, so it makes at most
/// four device calls; and it fails only when the plain shared-mode stream, the
/// last resort, cannot be initialized.
pub proof fn law_render_init_ends(stage: RenderInit, ok: bool)
    ensures
        !init_done(stage) ==> init_steps_left(next_init(stage, ok)) < init_steps_left(stage),
        init_done(stage) <==> init_steps_left(stage) == 0,
        next_init(stage, ok) == RenderInit::Failed && stage != RenderInit::Failed ==> stage
            == RenderInit::SharedMode && !ok,
{
}

/// One render pass over the device buffer.
#[derive(Debug, Clone, Copy, PartialEq, Eq, Structural)]
pub struct RenderBlock {
    /// Frames free in the device buffer.
    pub frames: u32,
    /// Bytes that those frames take.
    pub bytes: usize,
    /// Samples that those frames hold, over all channels.
    pub samples: usize,
    /// Whether the samples are 32-bit floats that the DSP stage can process.
    pub float_samples: bool,
}

/// Whether a mix format with this tag carries float samples.
pub open spec fn is_float_format(format_tag: u16) -> bool {
    format_tag == WAVE_FORMAT_EXTENSIBLE || format_tag == WAVE_FORMAT_IEEE_FLOAT
}

/// The pass over a device buffer of `buffer_size` frames of which `padding` are
/// still queued, in a mix format of `block_align` bytes and `channels` samples
/// per frame, tagged `format_tag`.
pub fn render_block(buffer_size: u32, padding: u32, block_align: u16, channels: u16, format_tag: u16) -> (b:
    RenderBlock)
    requires
        padding <= buffer_size,
        (buffer_size - padding) * block_align <= u32::MAX,
        (buffer_size - padding) * channels <= u32::MAX,
    ensures
        b.frames == buffer_size - padding,
        b.bytes == b.frames * block_align,
        b.samples == b.frames * channels,
        b.float_samples == is_float_format(format_tag),
{
    let frames = buffer_size - padding;
    let bytes_per_frame = block_align as u32;
    let bytes = (frames * bytes_per_frame) as usize;
    let samples = (frames * channels as u32) as usize;
    RenderBlock {
        frames,
        bytes,
        samples,
        float_samples: format_tag == WAVE_FORMAT_EXTENSIBLE || format_tag == WAVE_FORMAT_IEEE_FLOAT,
    }
}

} // verus!
