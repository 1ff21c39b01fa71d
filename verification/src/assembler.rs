//! The frame assembler: chunks in, frames out; frames in, chunks out.

use vstd::prelude::*;
use crate::framing::{
    concat, frame_views, frames_of, lemma_concat_push, lemma_frames_cover, lemma_frames_extend,
    lemma_split_is_div_mod, remainder_of,
};

verus! {

/// The mathematical content of a [`FrameAssembler`].
pub struct AssemblerView<T> {
    /// Number of samples in a frame.
    pub frame_size: nat,
    /// Input samples accumulated but not yet forming a complete frame.
    pub residue: Seq<T>,
    /// Processed samples that were pushed and not yet pulled.
    pub output: Seq<T>,
}

impl<T> AssemblerView<T> {
    /// An assembler for frames of `frame_size` samples that holds nothing.
    pub open spec fn empty(frame_size: nat) -> Self {
        AssemblerView { frame_size, residue: Seq::empty(), output: Seq::empty() }
    }

    /// The residue is always shorter than one frame.
    pub open spec fn wf(self) -> bool {
        self.residue.len() < self.frame_size
    }

    /// The frames that become complete when `chunk` follows the residue.
    pub open spec fn ready_frames(self, chunk: Seq<T>) -> Seq<Seq<T>> {
        frames_of(self.residue + chunk, self.frame_size)
    }

    /// The assembler after `chunk` was pushed and its complete frames emitted.
    pub open spec fn push_input(self, chunk: Seq<T>) -> Self {
        AssemblerView { residue: remainder_of(self.residue + chunk, self.frame_size), ..self }
    }

    /// The assembler after each chunk of `chunks` was pushed in turn.
    pub open spec fn feed(self, chunks: Seq<Seq<T>>) -> Self
        decreases chunks.len(),
    {
        if chunks.len() == 0 {
            self
        } else {
            self.feed(chunks.drop_last()).push_input(chunks.last())
        }
    }

    /// Every frame emitted while each chunk of `chunks` was pushed in turn.
    pub open spec fn fed_frames(self, chunks: Seq<Seq<T>>) -> Seq<Seq<T>>
        decreases chunks.len(),
    {
        if chunks.len() == 0 {
            Seq::empty()
        } else {
            self.fed_frames(chunks.drop_last()) + self.feed(chunks.drop_last()).ready_frames(
                chunks.last(),
            )
        }
    }

    /// The assembler after the processed samples `frame` were appended.
    pub open spec fn push_output(self, frame: Seq<T>) -> Self {
        AssemblerView { output: self.output + frame, ..self }
    }

    /// The assembler after its first `n` processed samples were removed.
    pub open spec fn pull_output(self, n: nat) -> Self {
        AssemblerView { output: self.output.skip(n as int), ..self }
    }

    /// The residue filled up to one frame with copies of `pad`.
    pub open spec fn padded_residue(self, pad: T) -> Seq<T> {
        self.residue + Seq::new((self.frame_size - self.residue.len()) as nat, |i: int| pad)
    }

    /// The assembler after its residue was handed out.
    pub open spec fn flush(self) -> Self {
        AssemblerView { residue: Seq::empty(), ..self }
    }
}

/// Chunking invariance: however a stream is split into chunks, pushing the
/// chunks in turn emits the frames of the whole stream and leaves its
/// remainder as residue. With `k` complete frames and `r` samples over in
/// total, exactly `k` frames come out and the residue holds `r` samples.
pub proof fn lemma_chunking_invariance<T>(a: AssemblerView<T>, chunks: Seq<Seq<T>>)
    requires
        a.wf(),
    ensures
        a.fed_frames(chunks) == frames_of(a.residue + concat(chunks), a.frame_size),
        a.feed(chunks).residue == remainder_of(a.residue + concat(chunks), a.frame_size),
        a.fed_frames(chunks).len() == (a.residue.len() + concat(chunks).len()) / a.frame_size,
        a.feed(chunks).residue.len() == (a.residue.len() + concat(chunks).len()) % a.frame_size,
        a.feed(chunks).wf(),
        a.feed(chunks).frame_size == a.frame_size,
        a.feed(chunks).output == a.output,
    decreases chunks.len(),
{
    let size = a.frame_size;
    if chunks.len() == 0 {
        assert(concat(chunks) == Seq::<T>::empty());
        assert(a.residue + concat(chunks) == a.residue);
        vstd::arithmetic::div_mod::lemma_small_mod(a.residue.len(), size);
        vstd::arithmetic::div_mod::lemma_basic_div(a.residue.len() as int, size as int);
        assert(remainder_of(a.residue, size) == a.residue);
        assert(frames_of(a.residue, size) == Seq::<Seq<T>>::empty());
    } else {
        let before = chunks.drop_last();
        let c = chunks.last();
        lemma_chunking_invariance(a, before);
        assert(chunks == before.push(c));
        lemma_concat_push(before, c);
        let s = a.residue + concat(before);
        assert(s + c == a.residue + concat(chunks));
        lemma_frames_extend(s, c, size);
        lemma_frames_cover(s + c, size);
    }
}

/// Two ways of splitting one stream into chunks give the same frames and
/// leave the same residue.
pub proof fn lemma_split_independent<T>(
    a: AssemblerView<T>,
    first: Seq<Seq<T>>,
    second: Seq<Seq<T>>,
)
    requires
        a.wf(),
        concat(first) == concat(second),
    ensures
        a.fed_frames(first) == a.fed_frames(second),
        a.feed(first) == a.feed(second),
{
    lemma_chunking_invariance(a, first);
    lemma_chunking_invariance(a, second);
    lemma_feed_keeps(a, first);
    lemma_feed_keeps(a, second);
}

/// Pushing input touches nothing but the residue.
proof fn lemma_feed_keeps<T>(a: AssemblerView<T>, chunks: Seq<Seq<T>>)
    ensures
        a.feed(chunks) == (AssemblerView { residue: a.feed(chunks).residue, ..a }),
    decreases chunks.len(),
{
    if chunks.len() > 0 {
        lemma_feed_keeps(a, chunks.drop_last());
    }
}

/// Accumulates sample chunks of any length into frames of a fixed size, and
/// hands processed samples back in chunks of whatever length is asked for.
pub struct FrameAssembler<T> {
    frame_size: usize,
    residue: Vec<T>,
    output: Vec<T>,
}

impl<T> FrameAssembler<T> {
    #[verifier::type_invariant]
    spec fn inv(&self) -> bool {
        self.residue@.len() < self.frame_size
    }
}

impl<T> View for FrameAssembler<T> {
    type V = AssemblerView<T>;

    closed spec fn view(&self) -> AssemblerView<T> {
        AssemblerView {
            frame_size: self.frame_size as nat,
            residue: self.residue@,
            output: self.output@,
        }
    }
}

impl<T: Copy> FrameAssembler<T> {
    /// Creates an assembler for frames of `frame_size` samples. There is no
    /// assembler for empty frames.
    pub fn new(frame_size: usize) -> (r: Option<Self>)
        ensures
            r is Some <==> frame_size > 0,
            r matches Some(a) ==> a@ == AssemblerView::<T>::empty(frame_size as nat),
    {
        if frame_size == 0 {
            None
        } else {
            Some(FrameAssembler { frame_size, residue: Vec::new(), output: Vec::new() })
        }
    }

    /// The number of samples in a frame.
    pub fn frame_size(&self) -> (n: usize)
        ensures
            n == self@.frame_size,
            n > 0,
            self@.wf(),
    {
        proof {
            use_type_invariant(self);
        }
        self.frame_size
    }

    /// The number of input samples waiting for a frame to fill up.
    pub fn residue_len(&self) -> (n: usize)
        ensures
            n == self@.residue.len(),
            n < self@.frame_size,
    {
        proof {
            use_type_invariant(self);
        }
        self.residue.len()
    }

    /// The number of processed samples that can be pulled.
    pub fn available(&self) -> (n: usize)
        ensures
            n == self@.output.len(),
    {
        self.output.len()
    }

    /// Appends `chunk` to the residue and returns every frame that is now
    /// complete, oldest first. What does not fill a frame stays as residue.
    pub fn push_input(&mut self, chunk: &[T]) -> (frames: Vec<Vec<T>>)
        ensures
            final(self)@ == old(self)@.push_input(chunk@),
            final(self)@.wf(),
            frame_views(frames@) == old(self)@.ready_frames(chunk@),
            frames@.len() == (old(self)@.residue.len() + chunk@.len()) / old(self)@.frame_size,
            final(self)@.residue.len() == (old(self)@.residue.len() + chunk@.len())
                % old(self)@.frame_size,
            forall|i: int|
                0 <= i < frames@.len() ==> (#[trigger] frames@[i])@.len() == old(self)@.frame_size,
    {
        proof {
            use_type_invariant(&*self);
        }
        let size = self.frame_size;
        let ghost sz = size as int;
        let ghost all = self.residue@ + chunk@;
        let ghost base = self.residue@.len() as int;
        let mut cur: Vec<T> = Vec::new();
        core::mem::swap(&mut self.residue, &mut cur);
        let mut frames: Vec<Vec<T>> = Vec::new();
        let mut i: usize = 0;
        assert(0 * sz == 0) by (nonlinear_arith);
        while i < chunk.len()
            invariant
                size == self.frame_size,
                sz == size as int,
                sz > 0,
                self.residue@.len() == 0,
                self.output@ == old(self).output@,
                i <= chunk@.len(),
                all == old(self).residue@ + chunk@,
                base == old(self).residue@.len(),
                cur@.len() < size,
                frames@.len() * sz + cur@.len() == base + i,
                cur@ == all.subrange(frames@.len() * sz, base + i),
                forall|j: int|
                    0 <= j < frames@.len() ==> (#[trigger] frames@[j])@ == all.subrange(
                        j * sz,
                        j * sz + sz,
                    ),
                forall|j: int| 0 <= j < frames@.len() ==> (#[trigger] frames@[j])@.len() == sz,
            decreases chunk@.len() - i,
        {
            let ghost start = frames@.len() * sz;
            cur.push(chunk[i]);
            i += 1;
            assert(cur@ == all.subrange(start, base + i));
            if cur.len() == size {
                let mut full: Vec<T> = Vec::new();
                core::mem::swap(&mut cur, &mut full);
                frames.push(full);
                assert(frames@.len() * sz == start + sz) by (nonlinear_arith)
                    requires start == (frames@.len() - 1) * sz;
                assert(cur@ == all.subrange(frames@.len() * sz, base + i));
            }
        }
        self.residue = cur;
        proof {
            let k = frames@.len() as int;
            lemma_split_is_div_mod(all.len() as int, sz, k, cur@.len() as int);
            assert(frame_views(frames@) =~= frames_of(all, size as nat));
            assert(cur@ == remainder_of(all, size as nat));
        }
        frames
    }

    /// Appends the processed samples of `frame` to what can be pulled.
    pub fn push_output(&mut self, frame: &[T])
        ensures
            final(self)@ == old(self)@.push_output(frame@),
    {
        proof {
            use_type_invariant(&*self);
        }
        let mut out: Vec<T> = Vec::new();
        core::mem::swap(&mut self.output, &mut out);
        let mut i: usize = 0;
        while i < frame.len()
            invariant
                i <= frame@.len(),
                self.frame_size == old(self).frame_size,
                self.residue@ == old(self).residue@,
                self.residue@.len() < self.frame_size,
                out@ == old(self).output@ + frame@.take(i as int),
            decreases frame@.len() - i,
        {
            out.push(frame[i]);
            i += 1;
            assert(out@ == old(self).output@ + frame@.take(i as int));
        }
        assert(frame@.take(i as int) == frame@);
        self.output = out;
    }

    /// Removes the `n` oldest processed samples and returns them. Hands out
    /// nothing, and changes nothing, when fewer than `n` are available.
    pub fn pull_output(&mut self, n: usize) -> (r: Option<Vec<T>>)
        ensures
            r is Some <==> n <= old(self)@.output.len(),
            r matches Some(v) ==> v@ == old(self)@.output.take(n as int)
                && final(self)@ == old(self)@.pull_output(n as nat),
            r is None ==> final(self)@ == old(self)@,
    {
        proof {
            use_type_invariant(&*self);
        }
        if n > self.output.len() {
            return None;
        }
        let mut head: Vec<T> = Vec::new();
        core::mem::swap(&mut self.output, &mut head);
        let tail = head.split_off(n);
        self.output = tail;
        Some(head)
    }

    /// Empties the assembler: residue and processed samples are dropped.
    pub fn clear(&mut self)
        ensures
            final(self)@ == AssemblerView::<T>::empty(old(self)@.frame_size),
    {
        proof {
            use_type_invariant(&*self);
        }
        self.residue = Vec::new();
        self.output = Vec::new();
    }

    /// Hands out the residue as one last frame, filled up with copies of
    /// `pad`, and leaves the residue empty. Returns nothing when there is no
    /// residue.
    pub fn flush(&mut self, pad: T) -> (r: Option<Vec<T>>)
        ensures
            r is Some <==> old(self)@.residue.len() > 0,
            r matches Some(v) ==> v@ == old(self)@.padded_residue(pad),
            final(self)@ == old(self)@.flush(),
    {
        proof {
            use_type_invariant(&*self);
        }
        if self.residue.len() == 0 {
            assert(self.residue@ == Seq::<T>::empty());
            return None;
        }
        let size = self.frame_size;
        let mut last: Vec<T> = Vec::new();
        core::mem::swap(&mut self.residue, &mut last);
        let ghost kept = last@;
        while last.len() < size
            invariant
                kept.len() <= last@.len() <= size,
                last@ == kept + Seq::new((last@.len() - kept.len()) as nat, |i: int| pad),
            decreases size - last@.len(),
        {
            last.push(pad);
            assert(last@ == kept + Seq::new((last@.len() - kept.len()) as nat, |i: int| pad));
        }
        Some(last)
    }
}

} // verus!
