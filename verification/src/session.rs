//! Creating the parts of a deferred session.

use vstd::prelude::*;
use crate::dtln_processor::{DtlnImmediateProcessor, ImmediateView, SessionConfig};
use crate::engine::{EngineFault, InferenceEngine};
use crate::error::DtlnError;
use crate::handoff::{HandOff, HandOffView};

verus! {

/// The two halves of a deferred session: the processor that the worker
/// thread owns, and the hand-off that both threads share.
pub struct DeferredParts<T, E> {
    /// The worker's processor.
    pub processor: DtlnImmediateProcessor<T, E>,
    /// The hand-off between the caller and the worker.
    pub hand_off: HandOff<T>,
}

/// Creates the parts of a deferred session whose hand-off has room for
/// `slots` waiting chunks. There is no session without an engine, for empty
/// frames, or without room.
pub fn create_deferred<T: Copy, E: InferenceEngine<T>>(
    engine: Result<E, EngineFault>,
    config: SessionConfig,
    slots: usize,
) -> (r: Result<DeferredParts<T, E>, DtlnError>)
    ensures
        r is Ok <==> engine is Ok && config.frame_size > 0 && slots > 0,
        r matches Ok(parts) ==> parts.processor@ == ImmediateView::<T>::fresh(config)
            && parts.hand_off@ == HandOffView::<T>::created(slots as nat),
        r matches Err(e) ==> e == DtlnError::Creation,
{
    match HandOff::new(slots) {
        Some(hand_off) => match DtlnImmediateProcessor::new(engine, config) {
            Ok(processor) => Ok(DeferredParts { processor, hand_off }),
            Err(e) => Err(e),
        },
        None => Err(DtlnError::Creation),
    }
}

} // verus!
