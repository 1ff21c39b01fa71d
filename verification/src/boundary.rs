//! Entry points for callers that bring their own buffers.

use vstd::prelude::*;
use crate::engine::InferenceEngine;
use crate::error::DtlnError;
use crate::dtln_processor::{DtlnImmediateProcessor, ImmediateView};
use crate::handoff::{HandOff, HandOffView};

verus! {

/// A buffer after `samples` were written to its front.
pub open spec fn written<T>(buffer: Seq<T>, samples: Seq<T>) -> Seq<T> {
    samples + buffer.skip(samples.len() as int)
}

/// Writes `samples` to the front of `output` and leaves the rest of it as it
/// was. Writes nothing when `output` cannot hold them all.
pub fn copy_into<T: Copy>(output: &mut [T], samples: &[T]) -> (r: Result<(), DtlnError>)
    ensures
        r is Ok <==> samples@.len() <= old(output)@.len(),
        r is Ok ==> final(output)@ == written(old(output)@, samples@),
        r matches Err(e) ==> e == DtlnError::BufferTooSmall && final(output)@ == old(output)@,
        final(output)@.len() == old(output)@.len(),
{
    if samples.len() > output.len() {
        return Err(DtlnError::BufferTooSmall);
    }
    let mut i: usize = 0;
    while i < samples.len()
        invariant
            i <= samples@.len() <= output@.len(),
            output@.len() == old(output)@.len(),
            output@ == samples@.take(i as int) + old(output)@.skip(i as int),
        decreases samples@.len() - i,
    {
        output[i] = samples[i];
        i += 1;
        assert(output@ == samples@.take(i as int) + old(output)@.skip(i as int));
    }
    assert(samples@.take(i as int) == samples@);
    Ok(())
}

/// The error with which `denoise_into` turns a call down before it does
/// anything, if it does: that of a session which accepts no samples, or
/// `BufferTooSmall` for an output buffer of `room` samples that cannot hold
/// what `count` samples of input bring back.
pub open spec fn refusal<T>(v: ImmediateView<T>, count: nat, room: nat) -> Option<DtlnError> {
    if v.refusal() is Some {
        v.refusal()
    } else if v.yield_count(count) > room {
        Some(DtlnError::BufferTooSmall)
    } else {
        None
    }
}

/// Denoises `input` and writes what comes back to the front of `output`;
/// returns how many samples were written. A call that the session does not
/// serve, or whose samples `output` cannot hold, is turned down before the
/// session or the buffer is touched, so that it can be made again. A fault of
/// the engine during the call leaves `output` as it was.
pub fn denoise_into<T: Copy, E: InferenceEngine<T>>(
    processor: &mut DtlnImmediateProcessor<T, E>,
    input: &[T],
    output: &mut [T],
) -> (r: Result<usize, DtlnError>)
    ensures
        final(output)@.len() == old(output)@.len(),
        match r {
            Ok(count) => {
                &&& refusal(old(processor)@, input@.len(), old(output)@.len()) is None
                &&& count == old(processor)@.yield_count(input@.len())
                &&& exists|outs: Seq<Seq<T>>|
                    {
                        &&& #[trigger] old(processor)@.fits(input@, outs)
                        &&& final(processor)@ == old(processor)@.after(input@, outs)
                        &&& final(output)@ == written(
                            old(output)@,
                            old(processor)@.yield_of(input@, outs),
                        )
                    }
            },
            Err(e) => {
                &&& final(output)@ == old(output)@
                &&& match refusal(old(processor)@, input@.len(), old(output)@.len()) {
                    Some(refused) => e == refused && final(processor)@ == old(processor)@,
                    None => {
                        &&& e == DtlnError::EngineFailure
                        &&& old(processor)@.faulted_during(input@, final(processor)@)
                    },
                }
            },
        },
        refusal(old(processor)@, input@.len(), old(output)@.len()) is None
            && old(processor)@.frames_for(input@).len() == 0 ==> r is Ok,
{
    if processor.is_stopped() {
        return Err(DtlnError::SessionStopped);
    }
    if processor.has_failed() {
        return Err(DtlnError::EngineFailure);
    }
    if processor.yield_for(input.len()) > output.len() {
        return Err(DtlnError::BufferTooSmall);
    }
    match processor.denoise(input) {
        Ok(result) => match copy_into(output, result.samples.as_slice()) {
            Ok(()) => Ok(result.samples.len()),
            Err(e) => Err(e),
        },
        Err(e) => Err(e),
    }
}

/// The denoising entry point behind a foreign caller that passes a session
/// handle and two buffers, any of which may be missing. Returns whether
/// `output` now starts with the denoised samples. Nothing is written, and
/// `false` returned, when the handle or a buffer is missing, when `input` is
/// empty, and whenever `denoise_into` fails; the session is not touched
/// unless it gets as far as its engine.
pub fn dtln_rs_denoise<T: Copy, E: InferenceEngine<T>>(
    handle: Option<&mut DtlnImmediateProcessor<T, E>>,
    input: Option<&[T]>,
    output: Option<&mut [T]>,
) -> (ok: bool)
    ensures
        ok ==> handle is Some && input is Some && output is Some && input->0@.len() > 0,
        output matches Some(buffer) ==> {
            &&& final(buffer)@.len() == buffer@.len()
            &&& !ok ==> final(buffer)@ == buffer@
        },
        handle matches Some(processor) ==> input is None || output is None || input->0@.len() == 0
            ==> final(processor)@ == processor@,
        handle matches Some(processor) ==> input matches Some(samples) ==> output matches Some(
            buffer,
        ) ==> samples@.len() > 0 ==> match refusal(processor@, samples@.len(), buffer@.len()) {
            Some(_) => !ok && final(processor)@ == processor@,
            None => {
                &&& processor@.frames_for(samples@).len() == 0 ==> ok
                &&& !ok ==> processor@.faulted_during(samples@, final(processor)@)
                &&& ok ==> exists|outs: Seq<Seq<T>>|
                    {
                        &&& #[trigger] processor@.fits(samples@, outs)
                        &&& final(processor)@ == processor@.after(samples@, outs)
                        &&& final(buffer)@ == written(buffer@, processor@.yield_of(samples@, outs))
                    }
            },
        },
{
    match handle {
        Some(processor) => match input {
            Some(samples) => match output {
                Some(buffer) => {
                    if samples.len() == 0 {
                        false
                    } else {
                        match denoise_into(processor, samples, buffer) {
                            Ok(_) => true,
                            Err(_) => false,
                        }
                    }
                },
                None => false,
            },
            None => false,
        },
        None => false,
    }
}

/// The error with which `exchange_into` turns a call down before it does
/// anything, if it does: a session told to stop, a fault on record, or an
/// output buffer of `room` samples that cannot hold the next answer.
pub open spec fn hand_off_refusal<T>(s: HandOffView<T>, room: nat) -> Option<DtlnError> {
    if !s.accepting() {
        Some(DtlnError::SessionStopped)
    } else if s.failed {
        Some(DtlnError::EngineFailure)
    } else if s.next_output().len() > room {
        Some(DtlnError::BufferTooSmall)
    } else {
        None
    }
}

/// The caller's side of a hand-off into a buffer: leaves `input` for the
/// worker and writes the oldest answer to the front of `output`. Returns how
/// many samples were written and whether the call was starved. A call that is
/// not served, or whose answer `output` cannot hold, changes nothing.
pub fn exchange_into<T: Copy>(hand_off: &mut HandOff<T>, input: &[T], output: &mut [T]) -> (r:
    Result<(usize, bool), DtlnError>)
    ensures
        final(output)@.len() == old(output)@.len(),
        match hand_off_refusal(old(hand_off)@, old(output)@.len()) {
            Some(e) => {
                &&& r == Err::<(usize, bool), DtlnError>(e)
                &&& final(hand_off)@ == old(hand_off)@
                &&& final(output)@ == old(output)@
            },
            None => {
                &&& r == Ok::<(usize, bool), DtlnError>(
                    (old(hand_off)@.next_output().len() as usize, old(hand_off)@.starved()),
                )
                &&& final(hand_off)@ == old(hand_off)@.submit(input@)
                &&& final(output)@ == written(old(output)@, old(hand_off)@.next_output())
            },
        },
{
    match hand_off.next_len() {
        Err(e) => Err(e),
        Ok(count) => {
            if count > output.len() {
                return Err(DtlnError::BufferTooSmall);
            }
            match hand_off.exchange(input) {
                Ok(result) => match copy_into(output, result.samples.as_slice()) {
                    Ok(()) => Ok((count, result.processor_starved)),
                    Err(e) => Err(e),
                },
                Err(e) => Err(e),
            }
        },
    }
}

} // verus!
