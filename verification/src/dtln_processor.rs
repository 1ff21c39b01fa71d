//! The immediate processor: assembler and engine on the caller's thread.

use vstd::prelude::*;
use vstd::slice::slice_subrange;
use crate::assembler::{lemma_chunking_invariance, AssemblerView, FrameAssembler};
use crate::engine::{full_frame, EngineFault, InferenceEngine};
use crate::error::DtlnError;
use crate::framing::{
    concat, frame_views, frames_of, lemma_concat_len_uniform, lemma_concat_push, lemma_frames_cover,
    remainder_of,
};

verus! {

/// What a session is created with. Neither value changes while it lives.
#[derive(Clone, Copy, Debug, PartialEq, Eq, Structural)]
pub struct SessionConfig {
    /// Samples per frame of the inference engine.
    pub frame_size: usize,
    /// Samples per second of the audio.
    pub sample_rate: u32,
}

/// What one call of `denoise` hands back.
#[derive(Clone, Debug, PartialEq)]
pub struct DenoiseResult<T> {
    /// The denoised samples, oldest first.
    pub samples: Vec<T>,
    /// Whether the worker had fallen behind when the call was made.
    pub processor_starved: bool,
}

/// The mathematical content of a [`DtlnImmediateProcessor`], but for the
/// state that its inference engine keeps to itself.
pub struct ImmediateView<T> {
    /// The frame assembler of the session.
    pub assembler: AssemblerView<T>,
    /// Samples per second of the audio.
    pub sample_rate: u32,
    /// Every frame that the inference engine was handed, in order.
    pub handed: Seq<Seq<T>>,
    /// Whether the inference engine has faulted.
    pub failed: bool,
    /// Whether the session was stopped.
    pub stopped: bool,
}

impl<T> ImmediateView<T> {
    /// A session that has processed nothing yet.
    pub open spec fn fresh(config: SessionConfig) -> Self {
        ImmediateView {
            assembler: AssemblerView::empty(config.frame_size as nat),
            sample_rate: config.sample_rate,
            handed: Seq::empty(),
            failed: false,
            stopped: false,
        }
    }

    /// Whether the session still accepts samples.
    pub open spec fn usable(self) -> bool {
        !self.failed && !self.stopped
    }

    /// The error with which a session that accepts no samples turns a call
    /// down: a stopped session says so, whatever else holds of it.
    pub open spec fn refusal(self) -> Option<DtlnError> {
        if self.stopped {
            Some(DtlnError::SessionStopped)
        } else if self.failed {
            Some(DtlnError::EngineFailure)
        } else {
            None
        }
    }

    /// The session after its engine faulted in a call in which it was
    /// handed `seen`: it is marked for good and holds nothing any more.
    pub open spec fn faulted(self, seen: Seq<Seq<T>>) -> Self {
        ImmediateView {
            assembler: AssemblerView::empty(self.assembler.frame_size),
            handed: self.handed + seen,
            failed: true,
            ..self
        }
    }

    /// Whether `next` is the session after a call with `input` in which the
    /// engine faulted: it was handed the frames of `input` in order up to the
    /// one at which it faulted.
    pub open spec fn faulted_during(self, input: Seq<T>, next: Self) -> bool {
        exists|count: int|
            1 <= count <= self.frames_for(input).len() && next == self.faulted(
                #[trigger] self.frames_for(input).take(count),
            )
    }

    /// How far the output trails the input: the samples taken in and not yet
    /// handed back.
    pub open spec fn lag(self) -> nat {
        self.assembler.residue.len() + self.assembler.output.len()
    }

    /// The frames that the inference engine is handed, in order, when
    /// `input` arrives.
    pub open spec fn frames_for(self, input: Seq<T>) -> Seq<Seq<T>> {
        self.assembler.ready_frames(input)
    }

    /// Whether `outs` can be what the engine made of the frames of `input`:
    /// one full frame for each.
    pub open spec fn fits(self, input: Seq<T>, outs: Seq<Seq<T>>) -> bool {
        &&& outs.len() == self.frames_for(input).len()
        &&& forall|i: int|
            0 <= i < outs.len() ==> (#[trigger] outs[i]).len() == self.assembler.frame_size
    }

    /// The processed samples on hand once the engine has answered with `outs`.
    pub open spec fn stock(self, outs: Seq<Seq<T>>) -> Seq<T> {
        self.assembler.output + concat(outs)
    }

    /// How many samples a call with `input` hands back: as many as came
    /// in, or all there are if those are fewer.
    pub open spec fn yield_len(self, input: Seq<T>, outs: Seq<Seq<T>>) -> nat {
        if input.len() <= self.stock(outs).len() {
            input.len()
        } else {
            self.stock(outs).len()
        }
    }

    /// The samples that a call with `input` hands back when the engine
    /// answers with `outs`.
    pub open spec fn yield_of(self, input: Seq<T>, outs: Seq<Seq<T>>) -> Seq<T> {
        self.stock(outs).take(self.yield_len(input, outs) as int)
    }

    /// The session after a call with `input` that the engine answered with
    /// `outs`.
    pub open spec fn after(self, input: Seq<T>, outs: Seq<Seq<T>>) -> Self {
        ImmediateView {
            assembler: AssemblerView {
                residue: self.assembler.push_input(input).residue,
                output: self.stock(outs).skip(self.yield_len(input, outs) as int),
                ..self.assembler
            },
            handed: self.handed + self.frames_for(input),
            ..self
        }
    }

    /// How many samples a call with `count` samples hands back, whatever the
    /// samples are and whatever the engine makes of them.
    pub open spec fn yield_count(self, count: nat) -> nat {
        let made = ((self.assembler.residue.len() + count) / self.assembler.frame_size)
            * self.assembler.frame_size;
        if count <= self.assembler.output.len() + made {
            count
        } else {
            (self.assembler.output.len() + made) as nat
        }
    }

    /// What draining hands back when the engine answers the last frame with
    /// `out`: the samples on hand, then as many of `out` as the residue held.
    pub open spec fn drained_yield(self, out: Seq<T>) -> Seq<T> {
        self.assembler.output + out.take(self.assembler.residue.len() as int)
    }

    /// The last frame of a stream: the residue, filled up with `pad`.
    pub open spec fn final_frame(self, pad: T) -> Seq<T> {
        self.assembler.padded_residue(pad)
    }

    /// The frames that the engine is handed when the session is drained: the
    /// last frame if there is a residue, and none otherwise.
    pub open spec fn frames_to_drain(self, pad: T) -> Seq<Seq<T>> {
        if self.assembler.residue.len() > 0 {
            seq![self.final_frame(pad)]
        } else {
            Seq::empty()
        }
    }

    /// The session after it was drained: nothing is held back.
    pub open spec fn drained(self, pad: T) -> Self {
        ImmediateView {
            assembler: AssemblerView::empty(self.assembler.frame_size),
            handed: self.handed + self.frames_to_drain(pad),
            ..self
        }
    }

    /// The session once it was stopped.
    pub open spec fn stop(self) -> Self {
        ImmediateView { stopped: true, ..self }
    }

    /// The session after a run of calls, of which call `i` brought
    /// `inputs[i]` and had the engine answer with `outs[i]`.
    pub open spec fn after_all(self, inputs: Seq<Seq<T>>, outs: Seq<Seq<Seq<T>>>) -> Self
        decreases inputs.len(),
    {
        if inputs.len() == 0 {
            self
        } else {
            self.after_all(inputs.drop_last(), outs.drop_last()).after(inputs.last(), outs.last())
        }
    }

    /// Everything that a run of calls handed back, in order.
    pub open spec fn yield_all(self, inputs: Seq<Seq<T>>, outs: Seq<Seq<Seq<T>>>) -> Seq<T>
        decreases inputs.len(),
    {
        if inputs.len() == 0 {
            Seq::empty()
        } else {
            self.yield_all(inputs.drop_last(), outs.drop_last()) + self.after_all(
                inputs.drop_last(),
                outs.drop_last(),
            ).yield_of(inputs.last(), outs.last())
        }
    }

    /// Every sample that the engine answered with in a run of calls, in order.
    pub open spec fn answers_all(outs: Seq<Seq<Seq<T>>>) -> Seq<T>
        decreases outs.len(),
    {
        if outs.len() == 0 {
            Seq::empty()
        } else {
            Self::answers_all(outs.drop_last()) + concat(outs.last())
        }
    }

    /// Whether, all along a run of calls, the engine answered every frame
    /// with one full frame.
    pub open spec fn fits_all(self, inputs: Seq<Seq<T>>, outs: Seq<Seq<Seq<T>>>) -> bool
        decreases inputs.len(),
    {
        &&& inputs.len() == outs.len()
        &&& inputs.len() > 0 ==> {
            &&& self.fits_all(inputs.drop_last(), outs.drop_last())
            &&& self.after_all(inputs.drop_last(), outs.drop_last()).fits(
                inputs.last(),
                outs.last(),
            )
        }
    }
}

/// One call, by the numbers: it hands back no more than came in; what came
/// in and was not handed back adds to the lag; the lag stays under one frame;
/// and the call hands back exactly as much as came in whenever the new
/// residue is within the old lag.
pub proof fn lemma_call_lengths<T>(v: ImmediateView<T>, input: Seq<T>, outs: Seq<Seq<T>>)
    requires
        v.assembler.wf(),
        v.fits(input, outs),
    ensures
        v.yield_of(input, outs).len() <= input.len(),
        v.yield_of(input, outs).len() + v.after(input, outs).lag() == input.len() + v.lag(),
        v.yield_of(input, outs).len() == input.len() <==> v.after(
            input,
            outs,
        ).assembler.residue.len() <= v.lag(),
        v.after(input, outs).assembler.wf(),
        v.after(input, outs).assembler.frame_size == v.assembler.frame_size,
        v.after(input, outs).lag() >= v.lag(),
        v.lag() < v.assembler.frame_size ==> v.after(input, outs).lag() < v.assembler.frame_size,
{
    let size = v.assembler.frame_size;
    let sz = size as int;
    let total = (v.assembler.residue.len() + input.len()) as int;
    lemma_concat_len_uniform(outs, size);
    lemma_frames_cover(v.assembler.residue + input, size);
    vstd::arithmetic::div_mod::lemma_fundamental_div_mod(total, sz);
    assert(sz * (total / sz) == outs.len() * size) by (nonlinear_arith)
        requires
            outs.len() == total / sz,
            sz == size,
    ;
}

/// How many samples a call hands back is known before the engine runs.
pub proof fn lemma_yield_count<T>(v: ImmediateView<T>, input: Seq<T>, outs: Seq<Seq<T>>)
    requires
        v.assembler.wf(),
        v.fits(input, outs),
    ensures
        v.yield_of(input, outs).len() == v.yield_count(input.len()),
{
    lemma_concat_len_uniform(outs, v.assembler.frame_size);
}

/// Steady state: once the lag has grown to one sample short of a frame,
/// every call hands back exactly as many samples as it was given, and the
/// lag stays where it is.
pub proof fn lemma_steady_state<T>(v: ImmediateView<T>, input: Seq<T>, outs: Seq<Seq<T>>)
    requires
        v.assembler.wf(),
        v.fits(input, outs),
        v.lag() + 1 == v.assembler.frame_size,
    ensures
        v.yield_of(input, outs).len() == input.len(),
        v.after(input, outs).lag() == v.lag(),
{
    lemma_call_lengths(v, input, outs);
}

/// Over any run of calls the output trails the input by the lag and by
/// nothing else: what was handed back plus the lag is what came in plus the
/// lag at the start. The lag never shrinks and stays under one frame.
pub proof fn lemma_output_trails_input<T>(
    v: ImmediateView<T>,
    inputs: Seq<Seq<T>>,
    outs: Seq<Seq<Seq<T>>>,
)
    requires
        v.assembler.wf(),
        v.lag() < v.assembler.frame_size,
        v.fits_all(inputs, outs),
    ensures
        v.yield_all(inputs, outs).len() + v.after_all(inputs, outs).lag() == concat(inputs).len()
            + v.lag(),
        v.yield_all(inputs, outs).len() <= concat(inputs).len(),
        v.lag() <= v.after_all(inputs, outs).lag() < v.assembler.frame_size,
        v.after_all(inputs, outs).assembler.wf(),
        v.after_all(inputs, outs).assembler.frame_size == v.assembler.frame_size,
    decreases inputs.len(),
{
    if inputs.len() == 0 {
        assert(concat(inputs) == Seq::<T>::empty());
    } else {
        lemma_output_trails_input(v, inputs.drop_last(), outs.drop_last());
        lemma_call_lengths(
            v.after_all(inputs.drop_last(), outs.drop_last()),
            inputs.last(),
            outs.last(),
        );
    }
}

/// The engine sees the whole stream, frame by frame, however the stream is
/// cut into calls: over any run of calls it is handed the frames of what the
/// session held followed by everything that came in, and what comes after the
/// last full frame is the residue.
pub proof fn lemma_engine_sees_whole_stream<T>(
    v: ImmediateView<T>,
    inputs: Seq<Seq<T>>,
    outs: Seq<Seq<Seq<T>>>,
)
    requires
        v.assembler.wf(),
    ensures
        v.after_all(inputs, outs).handed == v.handed + frames_of(
            v.assembler.residue + concat(inputs),
            v.assembler.frame_size,
        ),
        v.after_all(inputs, outs).assembler.residue == remainder_of(
            v.assembler.residue + concat(inputs),
            v.assembler.frame_size,
        ),
{
    lemma_follows_assembler(v, inputs, outs);
    lemma_chunking_invariance(v.assembler, inputs);
}

/// A session takes input in as its assembler does.
proof fn lemma_follows_assembler<T>(
    v: ImmediateView<T>,
    inputs: Seq<Seq<T>>,
    outs: Seq<Seq<Seq<T>>>,
)
    ensures
        v.after_all(inputs, outs).handed == v.handed + v.assembler.fed_frames(inputs),
        v.after_all(inputs, outs).assembler.residue == v.assembler.feed(inputs).residue,
        v.after_all(inputs, outs).assembler.frame_size == v.assembler.feed(inputs).frame_size,
    decreases inputs.len(),
{
    if inputs.len() > 0 {
        lemma_follows_assembler(v, inputs.drop_last(), outs.drop_last());
        let before = v.after_all(inputs.drop_last(), outs.drop_last());
        assert(v.handed + v.assembler.fed_frames(inputs.drop_last()) + before.frames_for(
            inputs.last(),
        ) == v.handed + v.assembler.fed_frames(inputs));
    } else {
        assert(v.handed + v.assembler.fed_frames(inputs) == v.handed);
    }
}

/// Nothing is made up and nothing is lost: over any run of calls, what was
/// handed back, followed by what is still on hand, is what was on hand at
/// the start followed by the engine's answers, sample for sample.
pub proof fn lemma_output_is_engine_stream<T>(
    v: ImmediateView<T>,
    inputs: Seq<Seq<T>>,
    outs: Seq<Seq<Seq<T>>>,
)
    requires
        inputs.len() == outs.len(),
    ensures
        v.yield_all(inputs, outs) + v.after_all(inputs, outs).assembler.output
            == v.assembler.output + ImmediateView::<T>::answers_all(outs),
    decreases inputs.len(),
{
    if inputs.len() == 0 {
        assert(v.yield_all(inputs, outs) + v.assembler.output == v.assembler.output);
        assert(v.assembler.output + ImmediateView::<T>::answers_all(outs) == v.assembler.output);
    } else {
        let before = v.after_all(inputs.drop_last(), outs.drop_last());
        lemma_output_is_engine_stream(v, inputs.drop_last(), outs.drop_last());
        let stock = before.stock(outs.last());
        let n = before.yield_len(inputs.last(), outs.last()) as int;
        assert(stock.take(n) + stock.skip(n) == stock);
        assert(v.yield_all(inputs, outs) + v.after_all(inputs, outs).assembler.output
            == v.yield_all(inputs.drop_last(), outs.drop_last()) + (stock.take(n) + stock.skip(n)));
        assert(v.yield_all(inputs.drop_last(), outs.drop_last()) + (before.assembler.output
            + concat(outs.last())) == (v.yield_all(inputs.drop_last(), outs.drop_last())
            + before.assembler.output) + concat(outs.last()));
        assert((v.assembler.output + ImmediateView::<T>::answers_all(outs.drop_last())) + concat(
            outs.last(),
        ) == v.assembler.output + ImmediateView::<T>::answers_all(outs));
    }
}

/// A drained stream is whole: after any run of calls, draining hands back
/// exactly the lag, so that all that was handed back is as long as all that
/// came in since the session held nothing.
pub proof fn lemma_drained_stream_is_whole<T>(
    v: ImmediateView<T>,
    inputs: Seq<Seq<T>>,
    outs: Seq<Seq<Seq<T>>>,
    last: Seq<T>,
)
    requires
        v.assembler.wf(),
        v.lag() == 0,
        v.fits_all(inputs, outs),
        last.len() == v.assembler.frame_size,
    ensures
        v.yield_all(inputs, outs).len() + v.after_all(inputs, outs).drained_yield(last).len()
            == concat(inputs).len(),
{
    lemma_output_trails_input(v, inputs, outs);
}

/// Stopping twice is stopping once.
pub proof fn lemma_stop_idempotent<T>(v: ImmediateView<T>)
    ensures
        v.stop().stop() == v.stop(),
        v.stop().stopped,
{
}

/// A synchronous denoiser: a frame assembler and an inference engine that
/// run to completion on the caller's thread.
pub struct DtlnImmediateProcessor<T, E> {
    assembler: FrameAssembler<T>,
    engine: E,
    sample_rate: u32,
    handed: Ghost<Seq<Seq<T>>>,
    failed: bool,
    stopped: bool,
}

impl<T, E> View for DtlnImmediateProcessor<T, E> {
    type V = ImmediateView<T>;

    closed spec fn view(&self) -> ImmediateView<T> {
        ImmediateView {
            assembler: self.assembler@,
            sample_rate: self.sample_rate,
            handed: self.handed@,
            failed: self.failed,
            stopped: self.stopped,
        }
    }
}

impl<T: Copy, E: InferenceEngine<T>> DtlnImmediateProcessor<T, E> {
    /// Hands one full frame to the engine and accepts one full frame in
    /// return. This is the only place where the engine is reached.
    fn run_engine(&mut self, frame: &[T]) -> (r: Option<Vec<T>>)
        requires
            frame@.len() == old(self)@.assembler.frame_size,
        ensures
            final(self)@ == (ImmediateView {
                handed: old(self)@.handed.push(frame@),
                ..old(self)@
            }),
            r matches Some(out) ==> out@.len() == old(self)@.assembler.frame_size,
    {
        let size = self.assembler.frame_size();
        self.handed = Ghost(self.handed@.push(frame@));
        full_frame(self.engine.infer(frame), size)
    }

    /// Creates a session around an engine. There is no session without an
    /// engine, nor for empty frames.
    pub fn new(engine: Result<E, EngineFault>, config: SessionConfig) -> (r: Result<
        Self,
        DtlnError,
    >)
        ensures
            r is Ok <==> engine is Ok && config.frame_size > 0,
            r matches Ok(p) ==> p@ == ImmediateView::<T>::fresh(config),
            r matches Err(e) ==> e == DtlnError::Creation,
    {
        match engine {
            Ok(engine) => match FrameAssembler::new(config.frame_size) {
                Some(assembler) => Ok(
                    DtlnImmediateProcessor {
                        assembler,
                        engine,
                        sample_rate: config.sample_rate,
                        handed: Ghost(Seq::empty()),
                        failed: false,
                        stopped: false,
                    },
                ),
                None => Err(DtlnError::Creation),
            },
            Err(_) => Err(DtlnError::Creation),
        }
    }

    /// What the session was created with.
    pub fn config(&self) -> (c: SessionConfig)
        ensures
            c.frame_size == self@.assembler.frame_size,
            c.sample_rate == self@.sample_rate,
    {
        SessionConfig { frame_size: self.assembler.frame_size(), sample_rate: self.sample_rate }
    }

    /// The number of samples in a frame.
    pub fn frame_size(&self) -> (n: usize)
        ensures
            n == self@.assembler.frame_size,
            n > 0,
            self@.assembler.wf(),
    {
        self.assembler.frame_size()
    }

    /// Whether the session was stopped.
    pub fn is_stopped(&self) -> (b: bool)
        ensures
            b == self@.stopped,
    {
        self.stopped
    }

    /// Whether the inference engine has faulted.
    pub fn has_failed(&self) -> (b: bool)
        ensures
            b == self@.failed,
    {
        self.failed
    }

    /// The number of input samples waiting for a frame to fill up.
    pub fn residue_len(&self) -> (n: usize)
        ensures
            n == self@.assembler.residue.len(),
            n < self@.assembler.frame_size,
    {
        self.assembler.residue_len()
    }

    /// The number of processed samples that were not handed back yet.
    pub fn available(&self) -> (n: usize)
        ensures
            n == self@.assembler.output.len(),
    {
        self.assembler.available()
    }

    /// How many samples `denoise` hands back for an input of `count`
    /// samples, as the session stands.
    pub fn yield_for(&self, count: usize) -> (n: usize)
        ensures
            n == self@.yield_count(count as nat),
            n <= count,
    {
        let size = self.assembler.frame_size();
        let held = self.assembler.residue_len();
        let stock = self.assembler.available();
        let over = count % size;
        let rest = if over >= size - held {
            over - (size - held)
        } else {
            held + over
        };
        proof {
            let sz = size as int;
            let total = held + count;
            let whole = (count / size) as int;
            vstd::arithmetic::div_mod::lemma_fundamental_div_mod(count as int, sz);
            let frames = if over >= size - held {
                whole + 1
            } else {
                whole
            };
            assert(total == frames * sz + rest) by (nonlinear_arith)
                requires
                    count == sz * whole + over,
                    total == held + count,
                    frames == if over >= sz - held {
                        whole + 1
                    } else {
                        whole
                    },
                    rest == if over >= sz - held {
                        over - (sz - held)
                    } else {
                        held + over
                    },
            ;
            crate::framing::lemma_split_is_div_mod(total, sz, frames, rest as int);
            assert((total / sz) * sz == total - rest);
        }
        if rest <= held {
            count
        } else if rest - held <= stock {
            count
        } else {
            count - (rest - held - stock)
        }
    }

    /// Stops the session. Stopping a stopped session changes nothing.
    pub fn stop(&mut self)
        ensures
            final(self)@ == old(self)@.stop(),
    {
        self.stopped = true;
    }

    /// Denoises `input`: every frame that `input` completes goes through the
    /// engine, and as many processed samples come back as went in, or all
    /// there are while the first frame is still filling up.
    ///
    /// A stopped session answers `SessionStopped`, a session whose engine has
    /// faulted `EngineFailure`; neither changes. A fault of the engine during
    /// the call is an `EngineFailure`: the session is marked for good and
    /// drops what it holds. A call that completes no frame does not reach the
    /// engine and succeeds.
    pub fn denoise(&mut self, input: &[T]) -> (r: Result<DenoiseResult<T>, DtlnError>)
        ensures
            old(self)@.refusal() is Some ==> r is Err,
            old(self)@.usable() && old(self)@.frames_for(input@).len() == 0 ==> r is Ok,
            r matches Ok(res) ==> {
                &&& old(self)@.usable()
                &&& !res.processor_starved
                &&& exists|outs: Seq<Seq<T>>|
                    {
                        &&& #[trigger] old(self)@.fits(input@, outs)
                        &&& res.samples@ == old(self)@.yield_of(input@, outs)
                        &&& final(self)@ == old(self)@.after(input@, outs)
                    }
                &&& res.samples@.len() == old(self)@.yield_count(input@.len())
                &&& res.samples@.len() <= input@.len()
                &&& res.samples@.len() + final(self)@.lag() == input@.len() + old(self)@.lag()
                &&& (res.samples@.len() == input@.len() <==> final(self)@.assembler.residue.len()
                    <= old(self)@.lag())
                &&& final(self)@.assembler.wf()
                &&& old(self)@.lag() < old(self)@.assembler.frame_size ==> final(self)@.lag()
                    < old(self)@.assembler.frame_size
            },
            r matches Err(e) ==> match old(self)@.refusal() {
                Some(refused) => e == refused && final(self)@ == old(self)@,
                None => e == DtlnError::EngineFailure && old(self)@.faulted_during(
                    input@,
                    final(self)@,
                ),
            },
    {
        if self.stopped {
            return Err(DtlnError::SessionStopped);
        }
        if self.failed {
            return Err(DtlnError::EngineFailure);
        }
        let size = self.assembler.frame_size();
        let ghost start = self@;
        let frames = self.assembler.push_input(input);
        let ghost staged = self.assembler@;
        let ghost mut outs: Seq<Seq<T>> = Seq::empty();
        let mut i: usize = 0;
        assert(start.handed + start.frames_for(input@).take(0) == start.handed);
        assert(concat(outs) == Seq::<T>::empty());
        assert(staged.output + concat(outs) == staged.output);
        while i < frames.len()
            invariant
                i <= frames@.len(),
                size == start.assembler.frame_size,
                start == old(self)@,
                start.usable(),
                frames@.len() == start.frames_for(input@).len(),
                !self.failed,
                !self.stopped,
                self.sample_rate == start.sample_rate,
                self.handed@ == start.handed + start.frames_for(input@).take(i as int),
                frame_views(frames@) == start.frames_for(input@),
                staged == start.assembler.push_input(input@),
                forall|j: int| 0 <= j < frames@.len() ==> (#[trigger] frames@[j])@.len() == size,
                outs.len() == i,
                forall|j: int| 0 <= j < outs.len() ==> (#[trigger] outs[j]).len() == size,
                self.assembler@ == staged.push_output(concat(outs)),
            decreases frames@.len() - i,
        {
            let ghost seen = start.frames_for(input@).take(i + 1);
            assert(start.frames_for(input@).take(i as int).push(frames@[i as int]@) == seen);
            assert(start.handed + start.frames_for(input@).take(i as int) + seq![frames@[i as int]@]
                == start.handed + seen);
            match self.run_engine(frames[i].as_slice()) {
                Some(out) => {
                    self.assembler.push_output(out.as_slice());
                    proof {
                        lemma_concat_push(outs, out@);
                        assert(staged.output + concat(outs) + out@ == staged.output + (concat(outs)
                            + out@));
                        outs = outs.push(out@);
                    }
                },
                None => {
                    self.assembler.clear();
                    self.failed = true;
                    assert(self@ == start.faulted(seen));
                    return Err(DtlnError::EngineFailure);
                },
            }
            i += 1;
        }
        let stock = self.assembler.available();
        let count = if input.len() <= stock {
            input.len()
        } else {
            stock
        };
        let samples = self.assembler.pull_output(count).unwrap();
        proof {
            assert(start.fits(input@, outs));
            lemma_call_lengths(start, input@, outs);
            lemma_yield_count(start, input@, outs);
            assert(samples@ == start.yield_of(input@, outs));
            assert(start.frames_for(input@).take(i as int) == start.frames_for(input@));
            assert(self@ == start.after(input@, outs));
        }
        Ok(DenoiseResult { samples, processor_starved: false })
    }

    /// Ends a stream: the residue, filled up with `pad`, goes through the
    /// engine as one last frame, and everything not handed back yet comes
    /// out, the padding left off. Afterwards the session holds nothing.
    ///
    /// A stopped session answers `SessionStopped`, a session whose engine has
    /// faulted `EngineFailure`; neither changes. With no residue the engine
    /// is not reached and the call succeeds.
    pub fn drain(&mut self, pad: T) -> (r: Result<Vec<T>, DtlnError>)
        ensures
            old(self)@.refusal() is Some ==> r is Err,
            old(self)@.usable() && old(self)@.assembler.residue.len() == 0 ==> r is Ok,
            r matches Ok(samples) ==> {
                &&& old(self)@.usable()
                &&& exists|out: Seq<T>|
                    {
                        &&& samples@ == #[trigger] old(self)@.drained_yield(out)
                        &&& old(self)@.assembler.residue.len() > 0 ==> out.len()
                            == old(self)@.assembler.frame_size
                    }
                &&& samples@.len() == old(self)@.lag()
                &&& final(self)@ == old(self)@.drained(pad)
            },
            r matches Err(e) ==> match old(self)@.refusal() {
                Some(refused) => e == refused && final(self)@ == old(self)@,
                None => e == DtlnError::EngineFailure && final(self)@ == old(self)@.faulted(
                    old(self)@.frames_to_drain(pad),
                ),
            },
    {
        if self.stopped {
            return Err(DtlnError::SessionStopped);
        }
        if self.failed {
            return Err(DtlnError::EngineFailure);
        }
        let ghost start = self@;
        let size = self.assembler.frame_size();
        let held = self.assembler.residue_len();
        let ghost mut answer: Seq<T> = Seq::empty();
        match self.assembler.flush(pad) {
            Some(frame) => {
                assert(start.handed.push(frame@) == start.handed + start.frames_to_drain(pad));
                match self.run_engine(frame.as_slice()) {
                    Some(out) => {
                        let kept = slice_subrange(out.as_slice(), 0, held);
                        self.assembler.push_output(kept);
                        proof {
                            answer = out@;
                        }
                    },
                    None => {
                        self.assembler.clear();
                        self.failed = true;
                        return Err(DtlnError::EngineFailure);
                    },
                }
            },
            None => {
                assert(start.handed + start.frames_to_drain(pad) == start.handed);
                assert(answer.take(0) == Seq::<T>::empty());
                assert(start.assembler.output + answer.take(0) == start.assembler.output);
            },
        }
        let all = self.assembler.available();
        let samples = self.assembler.pull_output(all).unwrap();
        proof {
            assert(samples@ == start.drained_yield(answer));
            assert(self@.assembler.output == Seq::<T>::empty());
            assert(self@ == start.drained(pad));
        }
        Ok(samples)
    }
}

} // verus!
