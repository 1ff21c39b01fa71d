//! Streams, frames and remainders, as mathematics.

use vstd::prelude::*;
use vstd::arithmetic::div_mod::lemma_fundamental_div_mod_converse;

verus! {

/// The complete frames of `size` samples that a stream `s` holds, in order.
pub open spec fn frames_of<T>(s: Seq<T>, size: nat) -> Seq<Seq<T>> {
    Seq::new((s.len() / size) as nat, |i: int| s.subrange(i * size, i * size + size))
}

/// What is left of a stream `s` once its complete frames of `size` samples
/// are taken away: its last `s.len() % size` samples.
pub open spec fn remainder_of<T>(s: Seq<T>, size: nat) -> Seq<T> {
    s.skip(s.len() - s.len() % size)
}

/// The views of a list of sample buffers.
pub open spec fn frame_views<T>(frames: Seq<Vec<T>>) -> Seq<Seq<T>> {
    frames.map_values(|f: Vec<T>| f@)
}

/// The samples of a list of chunks, one chunk after the other.
pub open spec fn concat<T>(chunks: Seq<Seq<T>>) -> Seq<T>
    decreases chunks.len(),
{
    if chunks.len() == 0 {
        Seq::empty()
    } else {
        concat(chunks.drop_last()) + chunks.last()
    }
}

/// A stream that is split as `q` blocks of `d` samples followed by `r < d`
/// samples has `q` complete frames and a remainder of `r`.
pub proof fn lemma_split_is_div_mod(x: int, d: int, q: int, r: int)
    requires
        d > 0,
        0 <= r < d,
        x == q * d + r,
    ensures
        q == x / d,
        r == x % d,
{
    lemma_fundamental_div_mod_converse(x, d, q, r);
}

/// Frame `i` of `k` frames of `sz` samples lies within the first `k * sz`
/// samples.
proof fn lemma_frame_bounds(i: int, k: int, sz: int)
    by (nonlinear_arith)
    requires
        0 <= i < k,
        sz > 0,
    ensures
        0 <= i * sz,
        i * sz + sz == (i + 1) * sz,
        (i + 1) * sz <= k * sz,
{
}

/// Frames and remainder put the stream back together, and every frame is full.
pub proof fn lemma_frames_cover<T>(s: Seq<T>, size: nat)
    requires
        size > 0,
    ensures
        concat(frames_of(s, size)) + remainder_of(s, size) == s,
        frames_of(s, size).len() * size + remainder_of(s, size).len() == s.len(),
        remainder_of(s, size).len() == s.len() % size,
        remainder_of(s, size).len() < size,
        forall|i: int|
            0 <= i < frames_of(s, size).len() ==> (#[trigger] frames_of(s, size)[i]).len() == size,
{
    let k = (s.len() / size) as int;
    let sz = size as int;
    vstd::arithmetic::div_mod::lemma_fundamental_div_mod(s.len() as int, sz);
    vstd::arithmetic::div_mod::lemma_mod_bound(s.len() as int, sz);
    vstd::arithmetic::div_mod::lemma_div_pos_is_pos(s.len() as int, sz);
    assert(sz * k == k * sz) by (nonlinear_arith);
    assert forall|i: int| 0 <= i < frames_of(s, size).len() implies (#[trigger] frames_of(
        s,
        size,
    )[i]).len() == size by {
        lemma_frame_bounds(i, k, sz);
    }
    lemma_concat_frames_prefix(s, size, k);
    assert(concat(frames_of(s, size).take(k)) == s.take(k * sz));
    assert(frames_of(s, size).take(k) == frames_of(s, size));
    assert(s.take(k * sz) + s.skip(k * sz) == s);
}

/// The first `n` frames of a stream make up its first `n * size` samples.
proof fn lemma_concat_frames_prefix<T>(s: Seq<T>, size: nat, n: int)
    requires
        size > 0,
        0 <= n <= s.len() / size,
    ensures
        n * size <= s.len(),
        concat(frames_of(s, size).take(n)) == s.take(n * size),
    decreases n,
{
    let sz = size as int;
    let k = (s.len() / size) as int;
    vstd::arithmetic::div_mod::lemma_fundamental_div_mod(s.len() as int, sz);
    vstd::arithmetic::div_mod::lemma_mod_bound(s.len() as int, sz);
    assert(n * sz <= k * sz && sz * k == k * sz) by (nonlinear_arith)
        requires 0 <= n <= k, sz > 0;
    let fs = frames_of(s, size).take(n);
    if n == 0 {
        assert(0 * sz == 0) by (nonlinear_arith);
        assert(concat(fs) == Seq::<T>::empty());
        assert(s.take(0) == Seq::<T>::empty());
    } else {
        lemma_concat_frames_prefix(s, size, n - 1);
        assert((n - 1) * sz + sz == n * sz) by (nonlinear_arith);
        assert(fs.drop_last() == frames_of(s, size).take(n - 1));
        assert(fs.last() == s.subrange((n - 1) * sz, (n - 1) * sz + sz));
        assert(s.take((n - 1) * sz) + s.subrange((n - 1) * sz, n * sz) == s.take(n * sz));
    }
}

/// Cutting a stream into frames can be done piecewise: the frames of `s`
/// followed by the frames of what `s` left over plus `c` are the frames of
/// `s + c`, and both leave the same remainder.
pub proof fn lemma_frames_extend<T>(s: Seq<T>, c: Seq<T>, size: nat)
    requires
        size > 0,
    ensures
        frames_of(s, size) + frames_of(remainder_of(s, size) + c, size) == frames_of(s + c, size),
        remainder_of(remainder_of(s, size) + c, size) == remainder_of(s + c, size),
{
    let sz = size as int;
    let rem = remainder_of(s, size);
    let k0 = (s.len() / size) as int;
    let r0 = (s.len() % size) as int;
    vstd::arithmetic::div_mod::lemma_fundamental_div_mod(s.len() as int, sz);
    vstd::arithmetic::div_mod::lemma_mod_bound(s.len() as int, sz);
    vstd::arithmetic::div_mod::lemma_div_pos_is_pos(s.len() as int, sz);
    assert(sz * k0 == k0 * sz) by (nonlinear_arith);
    let t = rem + c;
    let k1 = (t.len() / size) as int;
    let r1 = (t.len() % size) as int;
    vstd::arithmetic::div_mod::lemma_fundamental_div_mod(t.len() as int, sz);
    vstd::arithmetic::div_mod::lemma_mod_bound(t.len() as int, sz);
    vstd::arithmetic::div_mod::lemma_div_pos_is_pos(t.len() as int, sz);
    assert(sz * k1 == k1 * sz) by (nonlinear_arith);
    assert((k0 + k1) * sz == k0 * sz + k1 * sz) by (nonlinear_arith);
    lemma_split_is_div_mod((s + c).len() as int, sz, k0 + k1, r1);
    assert(t == (s + c).skip(k0 * sz));
    assert(remainder_of(t, size) == remainder_of(s + c, size));
    let left = frames_of(s, size) + frames_of(t, size);
    let right = frames_of(s + c, size);
    assert(left.len() == right.len());
    assert forall|i: int| 0 <= i < left.len() implies left[i] == right[i] by {
        lemma_frame_bounds(i, k0 + k1, sz);
        if i < k0 {
            assert((i + 1) * sz <= k0 * sz) by (nonlinear_arith)
                requires 0 <= i < k0, sz > 0;
            assert(s.subrange(i * sz, i * sz + sz) == (s + c).subrange(i * sz, i * sz + sz));
        } else {
            let j = i - k0;
            assert(j * sz == i * sz - k0 * sz) by (nonlinear_arith)
                requires j == i - k0;
            assert(t.subrange(j * sz, j * sz + sz) == (s + c).subrange(i * sz, i * sz + sz));
        }
    }
    assert(left == right);
}

/// Chunks put end to end: adding one more chunk at the end.
pub proof fn lemma_concat_push<T>(chunks: Seq<Seq<T>>, c: Seq<T>)
    ensures
        concat(chunks.push(c)) == concat(chunks) + c,
{
    assert(chunks.push(c).drop_last() == chunks);
}

/// `count` chunks of `size` samples each hold `count * size` samples.
pub proof fn lemma_concat_len_uniform<T>(chunks: Seq<Seq<T>>, size: nat)
    requires
        forall|i: int| 0 <= i < chunks.len() ==> (#[trigger] chunks[i]).len() == size,
    ensures
        concat(chunks).len() == chunks.len() * size,
    decreases chunks.len(),
{
    if chunks.len() == 0 {
        assert(0 * size == 0) by (nonlinear_arith);
    } else {
        lemma_concat_len_uniform(chunks.drop_last(), size);
        assert((chunks.len() - 1) * size + size == chunks.len() * size) by (nonlinear_arith);
    }
}

} // verus!
