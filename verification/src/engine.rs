//! The lifecycle decisions of the audio engine and of the WASAPI stream
//! threads. The threads, the device calls and the parameter atomics live with
//! the caller; this module decides, for each request, what the state becomes
//! and which thread work is due.

use vstd::prelude::*;

verus! {

/// Why the audio engine refused a request or failed.
#[derive(Debug)]
pub enum AudioEngineError {
    ComInit(String),
    NoDevice,
    DeviceActivation(String),
    StreamInit(String),
    FormatNotSupported(String),
    AlreadyRunning,
    NotRunning,
    /// A Windows API error, by its message.
    Windows(String),
}

/// What the audio engine holds: whether it runs, whether its audio thread is
/// still to be joined, and whether its telemetry receiver is still to be handed out.
#[derive(Debug, Clone, Copy, PartialEq, Eq, Structural)]
pub struct EngineLifecycle {
    pub running: bool,
    pub audio_thread: bool,
    pub telemetry: bool,
}

/// The state after a start request.
pub open spec fn after_start(s: EngineLifecycle) -> EngineLifecycle {
    if s.running {
        s
    } else {
        EngineLifecycle { running: true, audio_thread: true, telemetry: true }
    }
}

/// The state after a stop request.
pub open spec fn after_stop(s: EngineLifecycle) -> EngineLifecycle {
    if s.running {
        EngineLifecycle { running: false, audio_thread: false, telemetry: s.telemetry }
    } else {
        s
    }
}

impl EngineLifecycle {
    /// A stopped engine with no thread and no telemetry receiver.
    pub fn new() -> (s: Self)
        ensures
            !s.running && !s.audio_thread && !s.telemetry,
    {
        EngineLifecycle { running: false, audio_thread: false, telemetry: false }
    }

    /// Whether the engine runs.
    pub fn is_running(&self) -> (b: bool)
        ensures
            b == self.running,
    {
        self.running
    }

    /// A start request: refused when the engine runs; otherwise the engine runs,
    /// with a new audio thread and a new telemetry receiver.
    pub fn start(&mut self) -> (r: Result<(), AudioEngineError>)
        ensures
            *final(self) == after_start(*old(self)),
            old(self).running ==> r matches Err(AudioEngineError::AlreadyRunning),
            !old(self).running ==> r is Ok,
    {
        if self.running {
            return Err(AudioEngineError::AlreadyRunning);
        }
        self.running = true;
        self.audio_thread = true;
        self.telemetry = true;
        Ok(())
    }

    /// A stop request: refused when the engine does not run; otherwise the
    /// engine stops and the result says whether an audio thread is to be joined.
    pub fn stop(&mut self) -> (r: Result<bool, AudioEngineError>)
        ensures
            *final(self) == after_stop(*old(self)),
            !old(self).running ==> r matches Err(AudioEngineError::NotRunning),
            old(self).running ==> r == Ok::<bool, AudioEngineError>(old(self).audio_thread),
    {
        if !self.running {
            return Err(AudioEngineError::NotRunning);
        }
        self.running = false;
        let join = self.audio_thread;
        self.audio_thread = false;
        Ok(join)
    }

    /// Hands out the telemetry receiver: the result says whether there was one.
    pub fn take_telemetry(&mut self) -> (had: bool)
        ensures
            had == old(self).telemetry,
            *final(self) == (EngineLifecycle { telemetry: false, ..*old(self) }),
    {
        let had = self.telemetry;
        self.telemetry = false;
        had
    }
}

/// A stopped engine that is started and then stopped is stopped again, and the
/// stop joins the audio thread that the start spawned.
pub proof fn law_start_then_stop(s: EngineLifecycle)
    requires
        !s.running,
    ensures
        after_start(s).running,
        after_start(s).audio_thread,
        !after_stop(after_start(s)).running,
        !after_stop(after_start(s)).audio_thread,
{
}

/// A refused request changes nothing: starting a running engine, or stopping
/// a stopped one, leaves its state as it was.
pub proof fn law_refused_requests_change_nothing(s: EngineLifecycle)
    ensures
        s.running ==> after_start(s) == s,
        !s.running ==> after_stop(s) == s,
{
}

/// What a WASAPI stream holds: whether it runs and whether its thread is still
/// to be joined.
#[derive(Debug, Clone, Copy, PartialEq, Eq, Structural)]
pub struct StreamLifecycle {
    pub running: bool,
    pub thread: bool,
}

impl StreamLifecycle {
    /// A stream that does not run.
    pub fn new() -> (s: Self)
        ensures
            !s.running && !s.thread,
    {
        StreamLifecycle { running: false, thread: false }
    }

    /// A start request: a running stream stays as it is; otherwise it runs and
    /// the result says that its thread is to be spawned.
    pub fn start(&mut self) -> (spawn: bool)
        ensures
            spawn == !old(self).running,
            spawn ==> final(self).running && final(self).thread,
            !spawn ==> *final(self) == *old(self),
    {
        if self.running {
            return false;
        }
        self.running = true;
        self.thread = true;
        true
    }

    /// A stop request: a running stream stops and the result says whether its
    /// thread is to be joined; a stopped stream stays as it is.
    pub fn stop(&mut self) -> (join: bool)
        ensures
            old(self).running ==> join == old(self).thread && !final(self).running && !final(self).thread,
            !old(self).running ==> !join && *final(self) == *old(self),
    {
        if !self.running {
            return false;
        }
        self.running = false;
        let join = self.thread;
        self.thread = false;
        join
    }
}

} // verus!
