//! What the crate asks of an inference engine, and what it accepts from one.

use vstd::prelude::*;

verus! {

/// What an inference engine returns when it could not process a frame.
#[derive(Clone, Copy, Debug, PartialEq, Eq)]
pub struct EngineFault;

/// A frame-by-frame inference engine: it is handed one frame of samples and
/// produces one frame of processed samples, keeping whatever recurrent state
/// it needs from one frame to the next.
///
/// Nothing is assumed of an implementation. Callers inspect what comes back.
pub trait InferenceEngine<T> {
    /// Processes one frame.
    fn infer(&mut self, frame: &[T]) -> Result<Vec<T>, EngineFault>;
}

/// What an engine's answer to a frame of `size` samples is worth: its
/// samples if it is one full frame, and nothing otherwise. A short or a long
/// answer counts as a fault, like a fault that the engine reports itself.
pub open spec fn full_frame_of<T>(answer: Result<Vec<T>, EngineFault>, size: nat) -> Option<
    Seq<T>,
> {
    match answer {
        Ok(out) => if out@.len() == size {
            Some(out@)
        } else {
            None
        },
        Err(_) => None,
    }
}

/// Accepts an engine's answer to a frame of `size` samples only if it is one
/// full frame.
pub fn full_frame<T>(answer: Result<Vec<T>, EngineFault>, size: usize) -> (r: Option<Vec<T>>)
    ensures
        r is Some <==> full_frame_of(answer, size as nat) is Some,
        r matches Some(out) ==> Some(out@) == full_frame_of(answer, size as nat) && out@.len()
            == size,
{
    match answer {
        Ok(out) => if out.len() == size {
            Some(out)
        } else {
            None
        },
        Err(_) => None,
    }
}

} // verus!
