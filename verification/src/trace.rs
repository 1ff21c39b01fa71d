//! Histories of a hand-off, and the order in which chunks and answers pass
//! through it.

use vstd::prelude::*;
use crate::handoff::{lemma_steps_keep_bounds, HandOffView};

verus! {

/// One thing that happens to a hand-off.
pub enum Event<T> {
    /// The worker was started.
    Start,
    /// The caller made a call with this chunk.
    Exchange(Seq<T>),
    /// The worker asked for work.
    Poll,
    /// The worker answered with these samples.
    Complete(Seq<T>),
    /// The worker reported a fault.
    Fail,
    /// The session was told to stop.
    RequestStop,
    /// The worker was joined.
    FinishStop,
}

/// What has passed through a hand-off so far, each list in the order in
/// which it happened.
pub struct History<T> {
    /// The chunks that were enqueued.
    pub accepted: Seq<Seq<T>>,
    /// The chunks that the worker was given.
    pub taken: Seq<Seq<T>>,
    /// The answers that the worker gave.
    pub finished: Seq<Seq<T>>,
    /// The answers that were handed to the caller.
    pub delivered: Seq<Seq<T>>,
}

impl<T> History<T> {
    /// Nothing has happened.
    pub open spec fn empty() -> Self {
        History {
            accepted: Seq::empty(),
            taken: Seq::empty(),
            finished: Seq::empty(),
            delivered: Seq::empty(),
        }
    }

    /// The history after `event` happened to the hand-off `s`.
    pub open spec fn note(self, s: HandOffView<T>, event: Event<T>) -> Self {
        match event {
            Event::Exchange(chunk) => if s.serving() {
                History {
                    accepted: if s.has_room() {
                        self.accepted.push(chunk)
                    } else {
                        self.accepted
                    },
                    delivered: if s.ready.len() > 0 {
                        self.delivered.push(s.ready[0])
                    } else {
                        self.delivered
                    },
                    ..self
                }
            } else {
                self
            },
            Event::Poll => if s.can_take() {
                History { taken: self.taken.push(s.pending[0]), ..self }
            } else {
                self
            },
            Event::Complete(out) => if s.busy {
                History { finished: self.finished.push(out), ..self }
            } else {
                self
            },
            _ => self,
        }
    }
}

/// The hand-off `s` after `event`.
pub open spec fn step<T>(s: HandOffView<T>, event: Event<T>) -> HandOffView<T> {
    match event {
        Event::Start => s.start(),
        Event::Exchange(chunk) => s.exchanged(chunk),
        Event::Poll => s.polled(),
        Event::Complete(out) => s.completed(out),
        Event::Fail => s.faulted(),
        Event::RequestStop => s.request_stop(),
        Event::FinishStop => s.finish_stop(),
    }
}

/// A new hand-off after a run of events.
pub open spec fn state_after<T>(capacity: nat, events: Seq<Event<T>>) -> HandOffView<T>
    decreases events.len(),
{
    if events.len() == 0 {
        HandOffView::created(capacity)
    } else {
        step(state_after(capacity, events.drop_last()), events.last())
    }
}

/// What has passed through a new hand-off after a run of events.
pub open spec fn history_after<T>(capacity: nat, events: Seq<Event<T>>) -> History<T>
    decreases events.len(),
{
    if events.len() == 0 {
        History::empty()
    } else {
        history_after(capacity, events.drop_last()).note(
            state_after(capacity, events.drop_last()),
            events.last(),
        )
    }
}

/// First in, first out. Whatever happens to a hand-off, in whatever order:
/// the worker is given the chunks in the order in which they were enqueued
/// and skips none; the caller is handed the answers in the order in which
/// they were given, each one once; answer `i` is given while the worker
/// holds chunk `i`, so no answer exists before its chunk was enqueued; and
/// what the hand-off holds stays within its bounds.
pub proof fn lemma_first_in_first_out<T>(capacity: nat, events: Seq<Event<T>>)
    requires
        capacity >= 1,
    ensures
        ({
            let s = state_after(capacity, events);
            let h = history_after(capacity, events);
            &&& s.wf()
            &&& s.capacity == capacity
            &&& h.accepted == h.taken + s.pending
            &&& h.finished == h.delivered + s.ready
            &&& h.delivered.len() <= h.finished.len() <= h.taken.len() <= h.accepted.len()
            &&& h.taken.len() <= h.finished.len() + 1
            &&& s.busy ==> h.taken.len() == h.finished.len() + 1
            &&& !s.busy && !s.failed ==> h.taken.len() == h.finished.len()
        }),
    decreases events.len(),
{
    if events.len() == 0 {
        let h = History::<T>::empty();
        let s = HandOffView::<T>::created(capacity);
        assert(h.accepted == h.taken + s.pending);
        assert(h.finished == h.delivered + s.ready);
    } else {
        let before = events.drop_last();
        lemma_first_in_first_out(capacity, before);
        let s0 = state_after(capacity, before);
        let h0 = history_after(capacity, before);
        let s = state_after(capacity, events);
        let h = history_after(capacity, events);
        match events.last() {
            Event::Exchange(chunk) => {
                lemma_steps_keep_bounds(s0, chunk);
                assert(h.accepted == h.taken + s.pending);
                assert(h.finished == h.delivered + s.ready);
            },
            Event::Poll => {
                lemma_steps_keep_bounds(s0, Seq::empty());
                assert(h.accepted == h.taken + s.pending);
            },
            Event::Complete(out) => {
                lemma_steps_keep_bounds(s0, out);
                assert(h.finished == h.delivered + s.ready);
            },
            _ => {
                lemma_steps_keep_bounds(s0, Seq::empty());
            },
        }
    }
}

} // verus!
