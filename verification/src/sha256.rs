//! The 256-bit family: the compression function of SHA-256 over 32-bit words
//! and 64-byte blocks, as the Secure Hash Standard (FIPS 180-4) defines it, and
//! the two kernels that compute it.

use vstd::prelude::*;

verus! {

/// The round constants: the first 32 bits of the fractional parts of the cube
/// roots of the first 64 primes.
pub const K: [u32; 64] = [
    0x428a2f98, 0x71374491, 0xb5c0fbcf, 0xe9b5dba5,
    0x3956c25b, 0x59f111f1, 0x923f82a4, 0xab1c5ed5,
    0xd807aa98, 0x12835b01, 0x243185be, 0x550c7dc3,
    0x72be5d74, 0x80deb1fe, 0x9bdc06a7, 0xc19bf174,
    0xe49b69c1, 0xefbe4786, 0x0fc19dc6, 0x240ca1cc,
    0x2de92c6f, 0x4a7484aa, 0x5cb0a9dc, 0x76f988da,
    0x983e5152, 0xa831c66d, 0xb00327c8, 0xbf597fc7,
    0xc6e00bf3, 0xd5a79147, 0x06ca6351, 0x14292967,
    0x27b70a85, 0x2e1b2138, 0x4d2c6dfc, 0x53380d13,
    0x650a7354, 0x766a0abb, 0x81c2c92e, 0x92722c85,
    0xa2bfe8a1, 0xa81a664b, 0xc24b8b70, 0xc76c51a3,
    0xd192e819, 0xd6990624, 0xf40e3585, 0x106aa070,
    0x19a4c116, 0x1e376c08, 0x2748774c, 0x34b0bcb5,
    0x391c0cb3, 0x4ed8aa4a, 0x5b9cca4f, 0x682e6ff3,
    0x748f82ee, 0x78a5636f, 0x84c87814, 0x8cc70208,
    0x90befffa, 0xa4506ceb, 0xbef9a3f7, 0xc67178f2,
];

/// The eight working variables of the compression function.
#[derive(Clone, Copy, Debug, PartialEq, Eq, Structural)]
pub struct Working {
    pub a: u32,
    pub b: u32,
    pub c: u32,
    pub d: u32,
    pub e: u32,
    pub f: u32,
    pub g: u32,
    pub h: u32,
}

/// Rotation of `x` to the right by `n` bit positions, `0 < n < 32`.
#[verifier::allow_in_spec]
pub fn rotr(x: u32, n: u32) -> u32
    requires
        0 < n < 32,
    returns
        (x >> n) | (x << (32 - n) as u32),
{
    (x >> n) | (x << (32 - n))
}

/// The choice function: each bit of `x` picks the bit of `y` or of `z`.
#[verifier::allow_in_spec]
pub fn ch(x: u32, y: u32, z: u32) -> u32
    returns
        (x & y) ^ (!x & z),
{
    (x & y) ^ (!x & z)
}

/// The majority function: each bit is the one that at least two of `x`, `y`
/// and `z` have.
#[verifier::allow_in_spec]
pub fn maj(x: u32, y: u32, z: u32) -> u32
    returns
        (x & y) ^ (x & z) ^ (y & z),
{
    (x & y) ^ (x & z) ^ (y & z)
}

/// The function that the rounds apply to the working variable `a`.
#[verifier::allow_in_spec]
pub fn big_sigma0(x: u32) -> u32
    returns
        rotr(x, 2) ^ rotr(x, 13) ^ rotr(x, 22),
{
    rotr(x, 2) ^ rotr(x, 13) ^ rotr(x, 22)
}

/// The function that the rounds apply to the working variable `e`.
#[verifier::allow_in_spec]
pub fn big_sigma1(x: u32) -> u32
    returns
        rotr(x, 6) ^ rotr(x, 11) ^ rotr(x, 25),
{
    rotr(x, 6) ^ rotr(x, 11) ^ rotr(x, 25)
}

/// The function that the message schedule applies to the word 15 places back.
#[verifier::allow_in_spec]
pub fn small_sigma0(x: u32) -> u32
    returns
        rotr(x, 7) ^ rotr(x, 18) ^ (x >> 3),
{
    rotr(x, 7) ^ rotr(x, 18) ^ (x >> 3)
}

/// The function that the message schedule applies to the word 2 places back.
#[verifier::allow_in_spec]
pub fn small_sigma1(x: u32) -> u32
    returns
        rotr(x, 17) ^ rotr(x, 19) ^ (x >> 10),
{
    rotr(x, 17) ^ rotr(x, 19) ^ (x >> 10)
}

/// The `i`-th word of a block, `0 <= i < 16`: four bytes, the most significant
/// first.
pub open spec fn word_at(block: Seq<u8>, i: int) -> u32 {
    (block[4 * i] * 0x100_0000 + block[4 * i + 1] * 0x1_0000 + block[4 * i + 2] * 0x100
        + block[4 * i + 3]) as u32
}

/// The word `W_t` of the message schedule, `0 <= t < 64`: the block's own
/// words first, each later one mixed from four earlier ones.
pub open spec fn schedule_word(block: Seq<u8>, t: int) -> u32
    decreases t,
{
    if t < 16 {
        word_at(block, t)
    } else {
        small_sigma1(schedule_word(block, t - 2)).wrapping_add(
            schedule_word(block, t - 7),
        ).wrapping_add(small_sigma0(schedule_word(block, t - 15))).wrapping_add(
            schedule_word(block, t - 16),
        )
    }
}

/// The message schedule of a block: its 64 words.
pub open spec fn schedule(block: Seq<u8>) -> Seq<u32> {
    Seq::new(64, |t: int| schedule_word(block, t))
}

/// One round: the working variables after mixing in the constant `k` and the
/// schedule word `w`.
pub open spec fn round_step(v: Working, k: u32, w: u32) -> Working {
    let t1 = v.h.wrapping_add(big_sigma1(v.e)).wrapping_add(ch(v.e, v.f, v.g)).wrapping_add(
        k,
    ).wrapping_add(w);
    let t2 = big_sigma0(v.a).wrapping_add(maj(v.a, v.b, v.c));
    Working {
        a: t1.wrapping_add(t2),
        b: v.a,
        c: v.b,
        d: v.c,
        e: v.d.wrapping_add(t1),
        f: v.e,
        g: v.f,
        h: v.g,
    }
}

/// The working variables after the first `t` rounds over the schedule `w`.
pub open spec fn rounds_after(init: Working, w: Seq<u32>, t: nat) -> Working
    decreases t,
{
    if t == 0 {
        init
    } else {
        round_step(rounds_after(init, w, (t - 1) as nat), K[t - 1], w[t - 1])
    }
}

/// The state's eight words as working variables.
pub open spec fn working_of(state: Seq<u32>) -> Working {
    Working {
        a: state[0],
        b: state[1],
        c: state[2],
        d: state[3],
        e: state[4],
        f: state[5],
        g: state[6],
        h: state[7],
    }
}

/// The eight working variables as the words of a state.
pub open spec fn words_of(v: Working) -> Seq<u32> {
    seq![v.a, v.b, v.c, v.d, v.e, v.f, v.g, v.h]
}

/// The sum of two sets of working variables, word by word, modulo 2^32.
pub open spec fn word_sums(x: Working, y: Working) -> Working {
    Working {
        a: x.a.wrapping_add(y.a),
        b: x.b.wrapping_add(y.b),
        c: x.c.wrapping_add(y.c),
        d: x.d.wrapping_add(y.d),
        e: x.e.wrapping_add(y.e),
        f: x.f.wrapping_add(y.f),
        g: x.g.wrapping_add(y.g),
        h: x.h.wrapping_add(y.h),
    }
}

/// The compression function on working variables: the chaining value goes
/// through the 64 rounds over the block's schedule and is added to what
/// comes out.
pub open spec fn words_after_block(chain: Working, block: Seq<u8>) -> Working {
    word_sums(chain, rounds_after(chain, schedule(block), 64))
}

/// The compression function: the state that follows `state` once `block` has
/// been compressed into it.
pub open spec fn state_after_block(state: Seq<u32>, block: Seq<u8>) -> Seq<u32> {
    words_of(words_after_block(working_of(state), block))
}

/// The blocks of a slice as byte sequences, in order.
pub open spec fn block_views(blocks: Seq<[u8; 64]>) -> Seq<Seq<u8>> {
    Seq::new(blocks.len(), |i: int| blocks[i]@)
}

/// Chaining: the state after each of `blocks` in turn has been compressed
/// into the state that the one before it left. An empty sequence leaves the
/// state as it is.
pub open spec fn state_after_blocks(state: Seq<u32>, blocks: Seq<Seq<u8>>) -> Seq<u32>
    decreases blocks.len(),
{
    if blocks.len() == 0 {
        state
    } else {
        state_after_block(state_after_blocks(state, blocks.drop_last()), blocks.last())
    }
}

/// What the batched kernel leaves for a batch of at least one block: it
/// compresses the first block, and goes on with the rest for as long as any
/// remain.
pub open spec fn state_after_batch(state: Seq<u32>, blocks: Seq<Seq<u8>>) -> Seq<u32>
    decreases blocks.len(),
{
    let next = state_after_block(state, blocks.first());
    if blocks.len() <= 1 {
        next
    } else {
        state_after_batch(next, blocks.drop_first())
    }
}

/// Chaining can be read from the front: the first block is compressed into
/// the state, and the rest is chained from there.
pub proof fn lemma_chain_from_front(state: Seq<u32>, blocks: Seq<Seq<u8>>)
    requires
        blocks.len() >= 1,
    ensures
        state_after_blocks(state, blocks) == state_after_blocks(
            state_after_block(state, blocks.first()),
            blocks.drop_first(),
        ),
    decreases blocks.len(),
{
    let next = state_after_block(state, blocks.first());
    if blocks.len() == 1 {
        assert(state_after_blocks(state, blocks.drop_last()) == state);
        assert(state_after_blocks(next, blocks.drop_first()) == next);
    } else {
        lemma_chain_from_front(state, blocks.drop_last());
        assert(blocks.drop_last().first() == blocks.first());
        assert(blocks.drop_first().last() == blocks.last());
        assert(blocks.drop_first().drop_last() =~= blocks.drop_last().drop_first());
    }
}

/// Chaining over two runs of blocks, one after the other, is chaining over
/// the first run and then, from the state it left, over the second.
pub proof fn lemma_chain_concat(state: Seq<u32>, first: Seq<Seq<u8>>, second: Seq<Seq<u8>>)
    ensures
        state_after_blocks(state, first + second) == state_after_blocks(
            state_after_blocks(state, first),
            second,
        ),
    decreases second.len(),
{
    if second.len() == 0 {
        assert(first + second =~= first);
    } else {
        lemma_chain_concat(state, first, second.drop_last());
        assert((first + second).drop_last() =~= first + second.drop_last());
    }
}

/// On a batch of at least one block, the batched kernel leaves what
/// sequential chaining leaves.
pub proof fn lemma_batch_is_chain(state: Seq<u32>, blocks: Seq<Seq<u8>>)
    requires
        blocks.len() >= 1,
    ensures
        state_after_batch(state, blocks) == state_after_blocks(state, blocks),
    decreases blocks.len(),
{
    lemma_chain_from_front(state, blocks);
    if blocks.len() > 1 {
        lemma_batch_is_chain(state_after_block(state, blocks.first()), blocks.drop_first());
    }
}

proof fn lemma_pack_word(b0: u32, b1: u32, b2: u32, b3: u32)
    by (bit_vector)
    requires
        b0 < 0x100,
        b1 < 0x100,
        b2 < 0x100,
        b3 < 0x100,
    ensures
        (b0 << 24) | (b1 << 16) | (b2 << 8) | b3 == b0 * 0x100_0000 + b1 * 0x1_0000 + b2 * 0x100
            + b3,
{
}

/// Reads the `i`-th word of a block.
pub fn load_word(block: &[u8; 64], i: usize) -> (r: u32)
    requires
        i < 16,
    ensures
        r == word_at(block@, i as int),
{
    let b0: u32 = block[4 * i] as u32;
    let b1: u32 = block[4 * i + 1] as u32;
    let b2: u32 = block[4 * i + 2] as u32;
    let b3: u32 = block[4 * i + 3] as u32;
    proof {
        lemma_pack_word(b0, b1, b2, b3);
    }
    (b0 << 24) | (b1 << 16) | (b2 << 8) | b3
}

/// Expands a block into its message schedule.
pub fn message_schedule(block: &[u8; 64]) -> (w: [u32; 64])
    ensures
        w@ == schedule(block@),
{
    let mut w: [u32; 64] = [0u32; 64];
    let mut t: usize = 0;
    while t < 16
        invariant
            t <= 16,
            forall|j: int| 0 <= j < t ==> w[j] == schedule_word(block@, j),
        decreases 16 - t,
    {
        w[t] = load_word(block, t);
        t += 1;
    }
    while t < 64
        invariant
            16 <= t <= 64,
            forall|j: int| 0 <= j < t ==> w[j] == schedule_word(block@, j),
        decreases 64 - t,
    {
        w[t] = small_sigma1(w[t - 2]).wrapping_add(w[t - 7]).wrapping_add(
            small_sigma0(w[t - 15]),
        ).wrapping_add(w[t - 16]);
        t += 1;
    }
    w
}

/// Runs one round on the working variables.
pub fn round(v: Working, k: u32, w: u32) -> (r: Working)
    ensures
        r == round_step(v, k, w),
{
    let t1: u32 = v.h.wrapping_add(big_sigma1(v.e)).wrapping_add(ch(v.e, v.f, v.g)).wrapping_add(
        k,
    ).wrapping_add(w);
    let t2: u32 = big_sigma0(v.a).wrapping_add(maj(v.a, v.b, v.c));
    Working {
        a: t1.wrapping_add(t2),
        b: v.a,
        c: v.b,
        d: v.c,
        e: v.d.wrapping_add(t1),
        f: v.e,
        g: v.f,
        h: v.g,
    }
}

/// Runs the 64 rounds over a message schedule.
pub fn run_rounds(init: Working, w: &[u32; 64]) -> (r: Working)
    ensures
        r == rounds_after(init, w@, 64),
{
    let mut v: Working = init;
    let mut t: usize = 0;
    while t < 64
        invariant
            t <= 64,
            v == rounds_after(init, w@, t as nat),
        decreases 64 - t,
    {
        v = round(v, K[t], w[t]);
        t += 1;
    }
    v
}

/// Compresses a block into a chaining value held in working variables.
pub fn compress_words(chain: Working, block: &[u8; 64]) -> (r: Working)
    ensures
        r == words_after_block(chain, block@),
{
    let w: [u32; 64] = message_schedule(block);
    let v: Working = run_rounds(chain, &w);
    Working {
        a: chain.a.wrapping_add(v.a),
        b: chain.b.wrapping_add(v.b),
        c: chain.c.wrapping_add(v.c),
        d: chain.d.wrapping_add(v.d),
        e: chain.e.wrapping_add(v.e),
        f: chain.f.wrapping_add(v.f),
        g: chain.g.wrapping_add(v.g),
        h: chain.h.wrapping_add(v.h),
    }
}

/// Reads a state into working variables.
fn load_state(state: &[u32; 8]) -> (chain: Working)
    ensures
        chain == working_of(state@),
{
    Working {
        a: state[0],
        b: state[1],
        c: state[2],
        d: state[3],
        e: state[4],
        f: state[5],
        g: state[6],
        h: state[7],
    }
}

/// Writes working variables back as a state.
fn store_state(state: &mut [u32; 8], chain: Working)
    ensures
        final(state)@ == words_of(chain),
{
    state[0] = chain.a;
    state[1] = chain.b;
    state[2] = chain.c;
    state[3] = chain.d;
    state[4] = chain.e;
    state[5] = chain.f;
    state[6] = chain.g;
    state[7] = chain.h;
}

/// The one-block kernel: compresses `block` into `state`.
pub fn single_block_transform(state: &mut [u32; 8], block: &[u8; 64])
    ensures
        final(state)@ == state_after_block(old(state)@, block@),
{
    let chain: Working = load_state(state);
    store_state(state, compress_words(chain, block));
}

/// The batched kernel: compresses the blocks of a batch into `state`, one
/// after the other, with the chaining value held in working variables from the
/// first block to the last. The batch holds at least one block.
pub fn multi_block_transform(state: &mut [u32; 8], blocks: &[[u8; 64]])
    requires
        blocks@.len() >= 1,
    ensures
        final(state)@ == state_after_batch(old(state)@, block_views(blocks@)),
        final(state)@ == state_after_blocks(old(state)@, block_views(blocks@)),
{
    let n: usize = blocks.len();
    let mut chain: Working = load_state(state);
    let mut i: usize = 0;
    proof {
        lemma_batch_is_chain(state@, block_views(blocks@));
        assert(words_of(chain) =~= state@);
        assert(block_views(blocks@).skip(0) =~= block_views(blocks@));
    }
    loop
        invariant_except_break
            i < n,
            state_after_batch(old(state)@, block_views(blocks@)) == state_after_batch(
                words_of(chain),
                block_views(blocks@).skip(i as int),
            ),
        invariant
            n == blocks@.len(),
        ensures
            words_of(chain) == state_after_batch(old(state)@, block_views(blocks@)),
        decreases n - i,
    {
        proof {
            let rest = block_views(blocks@).skip(i as int);
            assert(rest.first() == blocks@[i as int]@);
            assert(rest.drop_first() =~= block_views(blocks@).skip(i + 1));
        }
        chain = compress_words(chain, &blocks[i]);
        i += 1;
        if i == n {
            break ;
        }
    }
    store_state(state, chain);
}

} // verus!
