//! The hand-off between a real-time caller and its worker, and the life of
//! a deferred session.

use std::collections::VecDeque;
use vstd::prelude::*;
use crate::error::DtlnError;
use crate::framing::frame_views;
use crate::dtln_processor::DenoiseResult;

verus! {

/// Where a deferred session stands in its life.
#[derive(Clone, Copy, Debug, PartialEq, Eq, Structural)]
pub enum Phase {
    /// Made, its worker not running yet.
    Created,
    /// The worker is running.
    Running,
    /// The worker was told to stop and has not been joined yet.
    Stopping,
    /// The worker is gone, or never ran.
    Stopped,
}

/// What the worker is to do next.
#[derive(Clone, Debug, PartialEq)]
pub enum WorkerStep<T> {
    /// Process this chunk, then report back with `complete`, `fail` or `settle`.
    Work(Vec<T>),
    /// Nothing to do: sleep until woken.
    Wait,
    /// Leave the loop.
    Exit,
}

/// The mathematical content of a [`HandOff`].
pub struct HandOffView<T> {
    /// How many chunks may wait for the worker at a time.
    pub capacity: nat,
    /// The chunks that wait for the worker, oldest first.
    pub pending: Seq<Seq<T>>,
    /// Whether the worker holds a chunk that it has not answered yet.
    pub busy: bool,
    /// The worker's answers that were not handed to the caller yet, oldest first.
    pub ready: Seq<Seq<T>>,
    /// Whether the worker has reported a fault of its engine.
    pub failed: bool,
    /// Where the session stands in its life.
    pub phase: Phase,
}

impl<T> HandOffView<T> {
    /// A new hand-off with room for `capacity` waiting chunks.
    pub open spec fn created(capacity: nat) -> Self {
        HandOffView {
            capacity,
            pending: Seq::empty(),
            busy: false,
            ready: Seq::empty(),
            failed: false,
            phase: Phase::Created,
        }
    }

    /// The chunks that were enqueued and not answered yet.
    pub open spec fn outstanding(self) -> nat {
        self.pending.len() + if self.busy {
            1nat
        } else {
            0nat
        }
    }

    /// What is held is bounded: no more chunks wait than there is room for,
    /// and chunks and answers together exceed the room by one at most.
    pub open spec fn wf(self) -> bool {
        &&& self.capacity >= 1
        &&& self.pending.len() <= self.capacity
        &&& self.outstanding() + self.ready.len() <= self.capacity + 1
    }

    /// Whether the worker has fallen behind: work that was enqueued before
    /// is not finished.
    pub open spec fn starved(self) -> bool {
        self.outstanding() > 0
    }

    /// Whether the session was not told to stop.
    pub open spec fn accepting(self) -> bool {
        self.phase == Phase::Created || self.phase == Phase::Running
    }

    /// Whether a call of the caller is served: the session was not told to
    /// stop and no fault is on record.
    pub open spec fn serving(self) -> bool {
        self.accepting() && !self.failed
    }

    /// Whether one more chunk can wait for the worker.
    pub open spec fn has_room(self) -> bool {
        self.pending.len() < self.capacity
    }

    /// What the next served call hands back: the oldest answer that was not
    /// handed back yet, or nothing if there is none.
    pub open spec fn next_output(self) -> Seq<T> {
        if self.ready.len() > 0 {
            self.ready[0]
        } else {
            Seq::empty()
        }
    }

    /// The hand-off after a served call with `input`: the oldest answer is
    /// gone, and `input` waits behind the others if there was room.
    pub open spec fn submit(self, input: Seq<T>) -> Self {
        HandOffView {
            pending: if self.has_room() {
                self.pending.push(input)
            } else {
                self.pending
            },
            ready: if self.ready.len() > 0 {
                self.ready.drop_first()
            } else {
                self.ready
            },
            ..self
        }
    }

    /// The hand-off after any call of the caller with `input`.
    pub open spec fn exchanged(self, input: Seq<T>) -> Self {
        if self.serving() {
            self.submit(input)
        } else {
            self
        }
    }

    /// Whether the worker is given a chunk when it asks.
    pub open spec fn can_take(self) -> bool {
        self.phase == Phase::Running && !self.failed && !self.busy && self.pending.len() > 0
    }

    /// Whether the worker is told to leave when it asks.
    pub open spec fn must_exit(self) -> bool {
        self.failed || self.phase == Phase::Stopping || self.phase == Phase::Stopped
    }

    /// The hand-off after the worker asked for work.
    pub open spec fn polled(self) -> Self {
        if self.can_take() {
            HandOffView { pending: self.pending.drop_first(), busy: true, ..self }
        } else {
            self
        }
    }

    /// The hand-off after the worker answered the chunk it holds with `out`.
    /// An answer to no chunk is left aside.
    pub open spec fn completed(self, out: Seq<T>) -> Self {
        if self.busy {
            HandOffView { busy: false, ready: self.ready.push(out), ..self }
        } else {
            self
        }
    }

    /// The hand-off after the worker reported a fault of its engine.
    pub open spec fn faulted(self) -> Self {
        HandOffView { busy: false, failed: true, ..self }
    }

    /// The hand-off once its worker runs.
    pub open spec fn start(self) -> Self {
        if self.phase == Phase::Created {
            HandOffView { phase: Phase::Running, ..self }
        } else {
            self
        }
    }

    /// Whether a stop has a running worker to wake and join.
    pub open spec fn must_join(self) -> bool {
        self.phase == Phase::Running
    }

    /// The hand-off after it was told to stop.
    pub open spec fn request_stop(self) -> Self {
        match self.phase {
            Phase::Created => HandOffView { phase: Phase::Stopped, ..self },
            Phase::Running => HandOffView { phase: Phase::Stopping, ..self },
            _ => self,
        }
    }

    /// The hand-off after its worker was joined.
    pub open spec fn finish_stop(self) -> Self {
        if self.phase == Phase::Stopping {
            HandOffView { phase: Phase::Stopped, ..self }
        } else {
            self
        }
    }

    /// The hand-off after a whole stop: told to stop, its worker joined.
    pub open spec fn stop(self) -> Self {
        self.request_stop().finish_stop()
    }

    /// Whether the session may be released: no worker runs.
    pub open spec fn may_release(self) -> bool {
        self.phase == Phase::Created || self.phase == Phase::Stopped
    }

    /// The hand-off after the worker, left alone, has answered chunk after
    /// chunk with `outs`.
    pub open spec fn worked_off(self, outs: Seq<Seq<T>>) -> Self
        decreases outs.len(),
    {
        if outs.len() == 0 {
            self
        } else {
            self.polled().completed(outs.first()).worked_off(outs.drop_first())
        }
    }
}

/// Every step keeps the hand-off within its bounds.
pub proof fn lemma_steps_keep_bounds<T>(s: HandOffView<T>, chunk: Seq<T>)
    requires
        s.wf(),
    ensures
        s.exchanged(chunk).wf(),
        s.polled().wf(),
        s.completed(chunk).wf(),
        s.faulted().wf(),
        s.start().wf(),
        s.request_stop().wf(),
        s.finish_stop().wf(),
{
}

/// A worker that is late starves the next call: after a served call, and for
/// as long as the worker has not answered, the hand-off is starved. That the
/// worker has picked a chunk up changes nothing.
pub proof fn lemma_delay_starves<T>(s: HandOffView<T>, input: Seq<T>)
    requires
        s.wf(),
        s.serving(),
    ensures
        s.exchanged(input).starved(),
        s.exchanged(input).polled().starved(),
{
}

/// A worker that has caught up ends the starvation: when the worker of a
/// running session is left to answer everything outstanding, its answers
/// wait in order behind those that were ready before, and the next call
/// is not starved.
pub proof fn lemma_catch_up<T>(s: HandOffView<T>, outs: Seq<Seq<T>>)
    requires
        s.wf(),
        s.phase == Phase::Running,
        !s.failed,
        outs.len() == s.outstanding(),
    ensures
        !s.worked_off(outs).starved(),
        s.worked_off(outs).ready == s.ready + outs,
        s.worked_off(outs).pending.len() == 0,
        s.worked_off(outs).serving(),
    decreases outs.len(),
{
    if outs.len() == 0 {
        assert(s.ready + outs == s.ready);
        assert(s.pending.len() == 0);
    } else {
        let next = s.polled().completed(outs.first());
        lemma_catch_up(next, outs.drop_first());
        assert(s.ready.push(outs.first()) + outs.drop_first() == s.ready + outs);
    }
}

/// A worker that keeps up is one call behind and no more: when the worker
/// answers each chunk before the next call, that call is not starved and
/// hands back the answer to the chunk of the call before it.
pub proof fn lemma_lockstep<T>(s: HandOffView<T>, chunk: Seq<T>, answer: Seq<T>)
    requires
        s.wf(),
        s.phase == Phase::Running,
        !s.failed,
        !s.starved(),
        s.ready.len() <= 1,
    ensures
        ({
            let next = s.exchanged(chunk).polled().completed(answer);
            &&& s.exchanged(chunk).polled().busy
            &&& !next.starved()
            &&& next.ready == seq![answer]
            &&& next.next_output() == answer
            &&& next.phase == Phase::Running
            &&& !next.failed
            &&& next.wf()
        }),
{
    let next = s.exchanged(chunk).polled().completed(answer);
    assert(s.exchanged(chunk).pending == seq![chunk]);
    assert(next.ready == seq![answer]);
}

/// Stopping twice is stopping once, whether the worker was joined in
/// between or not; and a stopped session serves no call.
pub proof fn lemma_stop_idempotent<T>(s: HandOffView<T>, input: Seq<T>)
    ensures
        s.stop().stop() == s.stop(),
        s.request_stop().request_stop() == s.request_stop(),
        !s.request_stop().must_join(),
        s.stop().phase == Phase::Stopped,
        s.stop().may_release(),
        !s.stop().serving(),
        s.stop().exchanged(input) == s.stop(),
{
}

/// The single point of contact between the caller's thread and the worker's:
/// chunks wait here for the worker, and the worker's answers wait here for the
/// caller. Whoever holds it decides how the two threads take turns.
pub struct HandOff<T> {
    capacity: usize,
    pending: VecDeque<Vec<T>>,
    ready: VecDeque<Vec<T>>,
    busy: bool,
    failed: bool,
    phase: Phase,
}

impl<T> View for HandOff<T> {
    type V = HandOffView<T>;

    closed spec fn view(&self) -> HandOffView<T> {
        HandOffView {
            capacity: self.capacity as nat,
            pending: frame_views(self.pending@),
            busy: self.busy,
            ready: frame_views(self.ready@),
            failed: self.failed,
            phase: self.phase,
        }
    }
}

impl<T> HandOff<T> {
    #[verifier::type_invariant]
    spec fn inv(&self) -> bool {
        self@.wf()
    }
}

impl<T: Copy> HandOff<T> {
    /// Creates a hand-off with room for `capacity` waiting chunks. There is
    /// none without room.
    pub fn new(capacity: usize) -> (r: Option<Self>)
        ensures
            r is Some <==> capacity > 0,
            r matches Some(h) ==> h@ == HandOffView::<T>::created(capacity as nat),
    {
        if capacity == 0 {
            None
        } else {
            let h = HandOff {
                capacity,
                pending: VecDeque::new(),
                ready: VecDeque::new(),
                busy: false,
                failed: false,
                phase: Phase::Created,
            };
            assert(frame_views(h.pending@) =~= Seq::<Seq<T>>::empty());
            assert(frame_views(h.ready@) =~= Seq::<Seq<T>>::empty());
            Some(h)
        }
    }

    /// Where the session stands in its life.
    pub fn phase(&self) -> (p: Phase)
        ensures
            p == self@.phase,
            self@.wf(),
    {
        proof {
            use_type_invariant(self);
        }
        self.phase
    }

    /// Whether the worker has fallen behind.
    pub fn is_starved(&self) -> (b: bool)
        ensures
            b == self@.starved(),
    {
        self.busy || self.pending.len() > 0
    }

    /// Whether one more chunk can wait for the worker.
    pub fn has_room(&self) -> (b: bool)
        ensures
            b == self@.has_room(),
    {
        self.pending.len() < self.capacity
    }

    /// Whether the worker has reported a fault of its engine.
    pub fn has_failed(&self) -> (b: bool)
        ensures
            b == self@.failed,
    {
        self.failed
    }

    /// Whether the session may be released: no worker runs.
    pub fn may_release(&self) -> (b: bool)
        ensures
            b == self@.may_release(),
    {
        match self.phase {
            Phase::Created => true,
            Phase::Stopped => true,
            _ => false,
        }
    }

    /// Records that the worker runs.
    pub fn start(&mut self)
        ensures
            final(self)@ == old(self)@.start(),
    {
        proof {
            use_type_invariant(&*self);
        }
        match self.phase {
            Phase::Created => {
                self.phase = Phase::Running;
            },
            _ => {},
        }
    }

    /// Tells the session to stop. Returns whether there is a running worker
    /// that the caller now has to wake and join.
    pub fn request_stop(&mut self) -> (join: bool)
        ensures
            final(self)@ == old(self)@.request_stop(),
            join == old(self)@.must_join(),
    {
        proof {
            use_type_invariant(&*self);
        }
        match self.phase {
            Phase::Created => {
                self.phase = Phase::Stopped;
                false
            },
            Phase::Running => {
                self.phase = Phase::Stopping;
                true
            },
            _ => false,
        }
    }

    /// Records that the worker was joined.
    pub fn finish_stop(&mut self)
        ensures
            final(self)@ == old(self)@.finish_stop(),
    {
        proof {
            use_type_invariant(&*self);
        }
        match self.phase {
            Phase::Stopping => {
                self.phase = Phase::Stopped;
            },
            _ => {},
        }
    }

    /// How many samples the next served call hands back; the error that
    /// the next call meets if it is not served.
    pub fn next_len(&self) -> (r: Result<usize, DtlnError>)
        ensures
            r is Ok <==> self@.serving(),
            r matches Ok(n) ==> n == self@.next_output().len(),
            r matches Err(e) ==> e == if self@.accepting() {
                DtlnError::EngineFailure
            } else {
                DtlnError::SessionStopped
            },
    {
        match self.phase {
            Phase::Stopping => {
                return Err(DtlnError::SessionStopped);
            },
            Phase::Stopped => {
                return Err(DtlnError::SessionStopped);
            },
            _ => {},
        }
        if self.failed {
            return Err(DtlnError::EngineFailure);
        }
        if self.ready.len() > 0 {
            Ok(self.ready[0].len())
        } else {
            Ok(0)
        }
    }

    /// The caller's side of the hand-off: leaves `input` for the worker and
    /// takes the oldest answer that was not taken yet. It is starved when
    /// work that was enqueued before is still unfinished; what it hands back
    /// then is older than the last chunk's answer, or nothing. A chunk for
    /// which there is no room is not enqueued; such a call is always starved.
    ///
    /// Once the session was told to stop the answer is `SessionStopped`, and
    /// once the worker reported a fault it is `EngineFailure`. Neither call
    /// changes anything.
    pub fn exchange(&mut self, input: &[T]) -> (r: Result<DenoiseResult<T>, DtlnError>)
        ensures
            old(self)@.wf(),
            final(self)@ == old(self)@.exchanged(input@),
            r is Ok <==> old(self)@.serving(),
            r matches Ok(res) ==> res.samples@ == old(self)@.next_output() && res.processor_starved
                == old(self)@.starved(),
            r matches Err(e) ==> e == if old(self)@.accepting() {
                DtlnError::EngineFailure
            } else {
                DtlnError::SessionStopped
            },
    {
        proof {
            use_type_invariant(&*self);
        }
        match self.phase {
            Phase::Stopping => {
                return Err(DtlnError::SessionStopped);
            },
            Phase::Stopped => {
                return Err(DtlnError::SessionStopped);
            },
            _ => {},
        }
        if self.failed {
            return Err(DtlnError::EngineFailure);
        }
        let starved = self.busy || self.pending.len() > 0;
        let mut ready: VecDeque<Vec<T>> = VecDeque::new();
        core::mem::swap(&mut self.ready, &mut ready);
        let samples = match ready.pop_front() {
            Some(oldest) => oldest,
            None => Vec::new(),
        };
        assert(frame_views(ready@) == old(self)@.submit(input@).ready);
        self.ready = ready;
        if self.pending.len() < self.capacity {
            let mut pending: VecDeque<Vec<T>> = VecDeque::new();
            core::mem::swap(&mut self.pending, &mut pending);
            pending.push_back(vstd::slice::slice_to_vec(input));
            assert(frame_views(pending@) == old(self)@.submit(input@).pending);
            self.pending = pending;
        }
        Ok(DenoiseResult { samples, processor_starved: starved })
    }

    /// The worker's side of the hand-off: asks what to do next. While the
    /// session runs, the worker is given the chunk that has waited longest,
    /// one at a time; it is told to leave once the session was told to stop
    /// or a fault is on record, and to wait otherwise.
    pub fn poll(&mut self) -> (step: WorkerStep<T>)
        ensures
            old(self)@.wf(),
            final(self)@ == old(self)@.polled(),
            step is Work <==> old(self)@.can_take(),
            step is Exit <==> old(self)@.must_exit(),
            step matches WorkerStep::Work(chunk) ==> chunk@ == old(self)@.pending[0],
    {
        proof {
            use_type_invariant(&*self);
        }
        if self.failed {
            return WorkerStep::Exit;
        }
        match self.phase {
            Phase::Created => WorkerStep::Wait,
            Phase::Stopping => WorkerStep::Exit,
            Phase::Stopped => WorkerStep::Exit,
            Phase::Running => {
                if self.busy {
                    return WorkerStep::Wait;
                }
                let mut pending: VecDeque<Vec<T>> = VecDeque::new();
                core::mem::swap(&mut self.pending, &mut pending);
                let next = pending.pop_front();
                assert(next is Some ==> frame_views(pending@) == old(self)@.pending.drop_first());
                self.pending = pending;
                match next {
                    Some(chunk) => {
                        self.busy = true;
                        WorkerStep::Work(chunk)
                    },
                    None => WorkerStep::Wait,
                }
            },
        }
    }

    /// The worker's answer to the chunk it holds. It waits for the caller
    /// behind the answers given before. An answer when the worker holds no
    /// chunk is dropped.
    pub fn complete(&mut self, output: Vec<T>)
        ensures
            final(self)@ == old(self)@.completed(output@),
    {
        proof {
            use_type_invariant(&*self);
        }
        if self.busy {
            self.busy = false;
            let mut ready: VecDeque<Vec<T>> = VecDeque::new();
            core::mem::swap(&mut self.ready, &mut ready);
            ready.push_back(output);
            assert(frame_views(ready@) == old(self)@.ready.push(output@));
            self.ready = ready;
        }
    }

    /// The worker's report that its engine faulted. The caller's next call
    /// learns of it.
    pub fn fail(&mut self)
        ensures
            final(self)@ == old(self)@.faulted(),
    {
        proof {
            use_type_invariant(&*self);
        }
        self.busy = false;
        self.failed = true;
    }

    /// Takes what the worker's processor made of a chunk: its samples are the
    /// answer, and any error is a fault.
    pub fn settle(&mut self, outcome: Result<DenoiseResult<T>, DtlnError>)
        ensures
            final(self)@ == match outcome {
                Ok(res) => old(self)@.completed(res.samples@),
                Err(_) => old(self)@.faulted(),
            },
    {
        match outcome {
            Ok(res) => self.complete(res.samples),
            Err(_) => self.fail(),
        }
    }
}

} // verus!
