//! The noise remover's frame bookkeeping: a model processes frames of a fixed
//! number of samples, and a buffer of another length is refused.

use vstd::prelude::*;

verus! {

/// The frame length of the noise model: 10 ms at 48 kHz.
pub const MODEL_FRAME_SIZE: usize = 480;

/// Why the noise remover refused.
#[derive(Debug)]
pub enum DeepNoiseError {
    OrtError(String),
    InvalidFrameSize { expected: usize, got: usize },
}

/// A noise remover for frames of a fixed length.
pub struct DeepNoiseProcessor {
    frame_size: usize,
}

impl View for DeepNoiseProcessor {
    type V = usize;

    closed spec fn view(&self) -> usize {
        self.frame_size
    }
}

impl DeepNoiseProcessor {
    /// A processor for the model at `_model_path`.
    pub fn new<P>(_model_path: P) -> (r: Result<Self, DeepNoiseError>)
        ensures
            r matches Ok(p) && p@ == MODEL_FRAME_SIZE,
    {
        Ok(DeepNoiseProcessor { frame_size: MODEL_FRAME_SIZE })
    }

    /// The number of samples in one frame.
    pub fn frame_size(&self) -> (n: usize)
        ensures
            n == self@,
    {
        self.frame_size
    }

    /// Whether a buffer of `len` samples can be processed: only one of exactly
    /// one frame.
    pub fn check_frame(&self, len: usize) -> (r: Result<(), DeepNoiseError>)
        ensures
            len == self@ ==> r is Ok,
            len != self@ ==> (r matches Err(DeepNoiseError::InvalidFrameSize { expected, got })
                && expected == self@ && got == len),
    {
        if len != self.frame_size {
            return Err(DeepNoiseError::InvalidFrameSize { expected: self.frame_size, got: len });
        }
        Ok(())
    }
}

} // verus!
