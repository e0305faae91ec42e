//! Compression functions of the SHA-2 family with a choice of kernel.
//!
//! A hash state is advanced over a sequence of message blocks either by the
//! one-block kernel, called once for each block, or by the batched kernel,
//! called once for the whole sequence. Which of the two runs is the caller's
//! choice, made from what the processor offers; the state that comes out does
//! not depend on it.

pub mod laws;
pub mod sha256;
pub mod sha512;

use vstd::prelude::*;

verus! {

/// The state that `compress256` leaves: the state itself for no blocks, else
/// what the chosen kernel leaves.
pub open spec fn compressed256(state: Seq<u32>, blocks: Seq<Seq<u8>>, accelerated: bool) -> Seq<
    u32,
> {
    if blocks.len() == 0 {
        state
    } else if accelerated {
        sha256::state_after_batch(state, blocks)
    } else {
        sha256::state_after_blocks(state, blocks)
    }
}

/// Advances a SHA-256 state over `blocks`, in order.
///
/// With `accelerated` set the batched kernel is called once, on all the
/// blocks; without it the one-block kernel is called for each block in turn.
/// No kernel is called for an empty `blocks`, and the state stays as it is.
/// Either way the state that comes out is the one that chaining the blocks
/// gives.
#[inline]
pub fn compress256(state: &mut [u32; 8], blocks: &[[u8; 64]], accelerated: bool)
    ensures
        final(state)@ == compressed256(old(state)@, sha256::block_views(blocks@), accelerated),
        final(state)@ == sha256::state_after_blocks(old(state)@, sha256::block_views(blocks@)),
{
    let n: usize = blocks.len();
    if n == 0 {
        return ;
    }
    if accelerated {
        sha256::multi_block_transform(state, blocks);
    } else {
        let mut i: usize = 0;
        while i < n
            invariant
                i <= n,
                n == blocks@.len(),
                state@ == sha256::state_after_blocks(
                    old(state)@,
                    sha256::block_views(blocks@).take(i as int),
                ),
            decreases n - i,
        {
            proof {
                let views = sha256::block_views(blocks@);
                assert(views.take(i + 1).drop_last() =~= views.take(i as int));
                assert(views.take(i + 1).last() == blocks@[i as int]@);
            }
            sha256::single_block_transform(state, &blocks[i]);
            i += 1;
        }
        proof {
            let views = sha256::block_views(blocks@);
            assert(views.take(n as int) =~= views);
        }
    }
}

/// The state that `compress512` leaves: the state itself for no blocks, else
/// what the chosen kernel leaves.
pub open spec fn compressed512(state: Seq<u64>, blocks: Seq<Seq<u8>>, accelerated: bool) -> Seq<
    u64,
> {
    if blocks.len() == 0 {
        state
    } else if accelerated {
        sha512::state_after_batch(state, blocks)
    } else {
        sha512::state_after_blocks(state, blocks)
    }
}

/// Advances a SHA-512 state over `blocks`, in order.
///
/// With `accelerated` set the batched kernel is called once, on all the
/// blocks; without it the one-block kernel is called for each block in turn.
/// No kernel is called for an empty `blocks`, and the state stays as it is.
/// Either way the state that comes out is the one that chaining the blocks
/// gives.
#[inline]
pub fn compress512(state: &mut [u64; 8], blocks: &[[u8; 128]], accelerated: bool)
    ensures
        final(state)@ == compressed512(old(state)@, sha512::block_views(blocks@), accelerated),
        final(state)@ == sha512::state_after_blocks(old(state)@, sha512::block_views(blocks@)),
{
    let n: usize = blocks.len();
    if n == 0 {
        return ;
    }
    if accelerated {
        sha512::multi_block_transform(state, blocks);
    } else {
        let mut i: usize = 0;
        while i < n
            invariant
                i <= n,
                n == blocks@.len(),
                state@ == sha512::state_after_blocks(
                    old(state)@,
                    sha512::block_views(blocks@).take(i as int),
                ),
            decreases n - i,
        {
            proof {
                let views = sha512::block_views(blocks@);
                assert(views.take(i + 1).drop_last() =~= views.take(i as int));
                assert(views.take(i + 1).last() == blocks@[i as int]@);
            }
            sha512::single_block_transform(state, &blocks[i]);
            i += 1;
        }
        proof {
            let views = sha512::block_views(blocks@);
            assert(views.take(n as int) =~= views);
        }
    }
}

} // verus!
