//! What holds of the compression functions whatever the state, the blocks and
//! the kernel chosen.

use crate::compressed256;
use crate::compressed512;
use crate::sha256;
use crate::sha512;
use vstd::prelude::*;

verus! {

/// The two kernels agree: the accelerated path leaves the state that the
/// baseline path leaves, which is the state that chaining the blocks gives.
pub proof fn path_equivalence_256(state: Seq<u32>, blocks: Seq<Seq<u8>>)
    ensures
        compressed256(state, blocks, true) == compressed256(state, blocks, false),
        compressed256(state, blocks, true) == sha256::state_after_blocks(state, blocks),
{
    if blocks.len() >= 1 {
        sha256::lemma_batch_is_chain(state, blocks);
    }
}

/// Compressing no blocks leaves the state as it is, on either path.
pub proof fn empty_identity_256(state: Seq<u32>, accelerated: bool)
    ensures
        compressed256(state, Seq::empty(), accelerated) == state,
{
}

/// Compressing a sequence of blocks in one call leaves what compressing its
/// first part and then, in a second call, the rest leaves, on whichever path
/// each of the three calls runs.
pub proof fn incremental_composition_256(
    state: Seq<u32>,
    first: Seq<Seq<u8>>,
    second: Seq<Seq<u8>>,
    whole_accelerated: bool,
    first_accelerated: bool,
    second_accelerated: bool,
)
    ensures
        compressed256(state, first + second, whole_accelerated) == compressed256(
            compressed256(state, first, first_accelerated),
            second,
            second_accelerated,
        ),
{
    path_equivalence_256(state, first + second);
    path_equivalence_256(state, first);
    path_equivalence_256(compressed256(state, first, first_accelerated), second);
    sha256::lemma_chain_concat(state, first, second);
}

/// Compressing two blocks in one call leaves what compressing the first and
/// then, in a second call, the other leaves.
pub proof fn two_blocks_256(state: Seq<u32>, b1: Seq<u8>, b2: Seq<u8>, accelerated: bool)
    ensures
        compressed256(state, seq![b1, b2], accelerated) == compressed256(
            compressed256(state, seq![b1], accelerated),
            seq![b2],
            accelerated,
        ),
{
    assert(seq![b1, b2] =~= seq![b1] + seq![b2]);
    incremental_composition_256(state, seq![b1], seq![b2], accelerated, accelerated, accelerated);
}

/// Compressing one block is the compression function, on either path.
pub proof fn one_block_256(state: Seq<u32>, block: Seq<u8>, accelerated: bool)
    ensures
        compressed256(state, seq![block], accelerated) == sha256::state_after_block(state, block),
{
    let blocks = seq![block];
    path_equivalence_256(state, blocks);
    assert(blocks.drop_last().len() == 0);
    assert(sha256::state_after_blocks(state, blocks.drop_last()) == state);
}

/// A block changes the state, unless the rounds turn the state's words into
/// eight zero words: then, and only then, the block leaves the state as it is.
pub proof fn block_changes_state_256(state: Seq<u32>, block: Seq<u8>, accelerated: bool)
    requires
        state.len() == 8,
    ensures
        compressed256(state, seq![block], accelerated) != state <==> sha256::rounds_after(
            sha256::working_of(state),
            sha256::schedule(block),
            64,
        ) != (sha256::Working { a: 0, b: 0, c: 0, d: 0, e: 0, f: 0, g: 0, h: 0 }),
{
    one_block_256(state, block, accelerated);
    let chain = sha256::working_of(state);
    let v = sha256::rounds_after(chain, sha256::schedule(block), 64);
    let next = sha256::state_after_block(state, block);
    if v == (sha256::Working { a: 0, b: 0, c: 0, d: 0, e: 0, f: 0, g: 0, h: 0 }) {
        assert(next =~= state);
    }
    if next == state {
        assert(next[0] == state[0]);
        assert(next[1] == state[1]);
        assert(next[2] == state[2]);
        assert(next[3] == state[3]);
        assert(next[4] == state[4]);
        assert(next[5] == state[5]);
        assert(next[6] == state[6]);
        assert(next[7] == state[7]);
    }
}

/// The two kernels agree: the accelerated path leaves the state that the
/// baseline path leaves, which is the state that chaining the blocks gives.
pub proof fn path_equivalence_512(state: Seq<u64>, blocks: Seq<Seq<u8>>)
    ensures
        compressed512(state, blocks, true) == compressed512(state, blocks, false),
        compressed512(state, blocks, true) == sha512::state_after_blocks(state, blocks),
{
    if blocks.len() >= 1 {
        sha512::lemma_batch_is_chain(state, blocks);
    }
}

/// Compressing no blocks leaves the state as it is, on either path.
pub proof fn empty_identity_512(state: Seq<u64>, accelerated: bool)
    ensures
        compressed512(state, Seq::empty(), accelerated) == state,
{
}

/// Compressing a sequence of blocks in one call leaves what compressing its
/// first part and then, in a second call, the rest leaves, on whichever path
/// each of the three calls runs.
pub proof fn incremental_composition_512(
    state: Seq<u64>,
    first: Seq<Seq<u8>>,
    second: Seq<Seq<u8>>,
    whole_accelerated: bool,
    first_accelerated: bool,
    second_accelerated: bool,
)
    ensures
        compressed512(state, first + second, whole_accelerated) == compressed512(
            compressed512(state, first, first_accelerated),
            second,
            second_accelerated,
        ),
{
    path_equivalence_512(state, first + second);
    path_equivalence_512(state, first);
    path_equivalence_512(compressed512(state, first, first_accelerated), second);
    sha512::lemma_chain_concat(state, first, second);
}

/// Compressing two blocks in one call leaves what compressing the first and
/// then, in a second call, the other leaves.
pub proof fn two_blocks_512(state: Seq<u64>, b1: Seq<u8>, b2: Seq<u8>, accelerated: bool)
    ensures
        compressed512(state, seq![b1, b2], accelerated) == compressed512(
            compressed512(state, seq![b1], accelerated),
            seq![b2],
            accelerated,
        ),
{
    assert(seq![b1, b2] =~= seq![b1] + seq![b2]);
    incremental_composition_512(state, seq![b1], seq![b2], accelerated, accelerated, accelerated);
}

/// Compressing one block is the compression function, on either path.
pub proof fn one_block_512(state: Seq<u64>, block: Seq<u8>, accelerated: bool)
    ensures
        compressed512(state, seq![block], accelerated) == sha512::state_after_block(state, block),
{
    let blocks = seq![block];
    path_equivalence_512(state, blocks);
    assert(blocks.drop_last().len() == 0);
    assert(sha512::state_after_blocks(state, blocks.drop_last()) == state);
}

/// A block changes the state, unless the rounds turn the state's words into
/// eight zero words: then, and only then, the block leaves the state as it is.
pub proof fn block_changes_state_512(state: Seq<u64>, block: Seq<u8>, accelerated: bool)
    requires
        state.len() == 8,
    ensures
        compressed512(state, seq![block], accelerated) != state <==> sha512::rounds_after(
            sha512::working_of(state),
            sha512::schedule(block),
            80,
        ) != (sha512::Working { a: 0, b: 0, c: 0, d: 0, e: 0, f: 0, g: 0, h: 0 }),
{
    one_block_512(state, block, accelerated);
    let chain = sha512::working_of(state);
    let v = sha512::rounds_after(chain, sha512::schedule(block), 80);
    let next = sha512::state_after_block(state, block);
    if v == (sha512::Working { a: 0, b: 0, c: 0, d: 0, e: 0, f: 0, g: 0, h: 0 }) {
        assert(next =~= state);
    }
    if next == state {
        assert(next[0] == state[0]);
        assert(next[1] == state[1]);
        assert(next[2] == state[2]);
        assert(next[3] == state[3]);
        assert(next[4] == state[4]);
        assert(next[5] == state[5]);
        assert(next[6] == state[6]);
        assert(next[7] == state[7]);
    }
}

} // verus!
