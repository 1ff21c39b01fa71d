//! Feeding a recorded stream in blocks, as a live audio callback would.

use vstd::prelude::*;

verus! {

/// Where the block that starts at `start` ends, when a stream of `total`
/// samples is fed in blocks of `block` samples: one block further on, or at
/// the end of the stream if that comes first.
pub open spec fn block_end_of(total: nat, start: nat, block: nat) -> nat {
    if start + block <= total {
        start + block
    } else {
        total
    }
}

/// How many blocks of `block` samples it takes to feed `total` samples,
/// the last of them possibly short.
pub open spec fn block_count_of(total: nat, block: nat) -> nat {
    if total % block == 0 {
        total / block
    } else {
        total / block + 1
    }
}

/// Where the block that starts at `start` ends, and whether it is a short
/// block, which can only be the last.
pub fn block_end(total: usize, start: usize, block: usize) -> (r: (usize, bool))
    ensures
        r.0 == block_end_of(total as nat, start as nat, block as nat),
        r.1 == (start + block > total),
        start <= total ==> start <= r.0 <= total,
{
    if start <= total && block <= total - start {
        (start + block, false)
    } else {
        (total, true)
    }
}

/// Walking a stream block by block reaches its end in `block_count_of` steps
/// and not sooner: block `i` starts at `i * block`, inside the stream.
pub proof fn lemma_blocks_cover(total: nat, block: nat, i: nat)
    requires
        block > 0,
        i < block_count_of(total, block),
    ensures
        i * block < total,
        i + 1 == block_count_of(total, block) <==> block_end_of(total, i * block, block) == total,
        i + 1 < block_count_of(total, block) ==> block_end_of(total, i * block, block) == (i + 1)
            * block,
{
    let b = block as int;
    let q = (total / block) as int;
    let r = (total % block) as int;
    vstd::arithmetic::div_mod::lemma_fundamental_div_mod(total as int, b);
    vstd::arithmetic::div_mod::lemma_mod_bound(total as int, b);
    vstd::arithmetic::div_mod::lemma_div_pos_is_pos(total as int, b);
    assert(b * q == q * b) by (nonlinear_arith);
    assert((i + 1) * b == i * b + b) by (nonlinear_arith);
    if i < q {
        assert((i + 1) * b <= q * b) by (nonlinear_arith)
            requires
                i + 1 <= q,
                b > 0,
        ;
        if i + 1 < q {
            assert((i + 2) * b <= q * b) by (nonlinear_arith)
                requires
                    i + 2 <= q,
                    b > 0,
            ;
            assert((i + 2) * b == i * b + b + b) by (nonlinear_arith);
        }
    } else {
        assert(i == q);
    }
}

} // verus!
