//! The 512-bit family: the compression function of SHA-512 over 64-bit words
//! and 128-byte blocks, as the Secure Hash Standard (FIPS 180-4) defines it,
//! and the two kernels that compute it.

use vstd::prelude::*;

verus! {

/// The round constants: the first 64 bits of the fractional parts of the cube
/// roots of the first 80 primes.
pub const K: [u64; 80] = [
    0x428a2f98d728ae22, 0x7137449123ef65cd,
    0xb5c0fbcfec4d3b2f, 0xe9b5dba58189dbbc,
    0x3956c25bf348b538, 0x59f111f1b605d019,
    0x923f82a4af194f9b, 0xab1c5ed5da6d8118,
    0xd807aa98a3030242, 0x12835b0145706fbe,
    0x243185be4ee4b28c, 0x550c7dc3d5ffb4e2,
    0x72be5d74f27b896f, 0x80deb1fe3b1696b1,
    0x9bdc06a725c71235, 0xc19bf174cf692694,
    0xe49b69c19ef14ad2, 0xefbe4786384f25e3,
    0x0fc19dc68b8cd5b5, 0x240ca1cc77ac9c65,
    0x2de92c6f592b0275, 0x4a7484aa6ea6e483,
    0x5cb0a9dcbd41fbd4, 0x76f988da831153b5,
    0x983e5152ee66dfab, 0xa831c66d2db43210,
    0xb00327c898fb213f, 0xbf597fc7beef0ee4,
    0xc6e00bf33da88fc2, 0xd5a79147930aa725,
    0x06ca6351e003826f, 0x142929670a0e6e70,
    0x27b70a8546d22ffc, 0x2e1b21385c26c926,
    0x4d2c6dfc5ac42aed, 0x53380d139d95b3df,
    0x650a73548baf63de, 0x766a0abb3c77b2a8,
    0x81c2c92e47edaee6, 0x92722c851482353b,
    0xa2bfe8a14cf10364, 0xa81a664bbc423001,
    0xc24b8b70d0f89791, 0xc76c51a30654be30,
    0xd192e819d6ef5218, 0xd69906245565a910,
    0xf40e35855771202a, 0x106aa07032bbd1b8,
    0x19a4c116b8d2d0c8, 0x1e376c085141ab53,
    0x2748774cdf8eeb99, 0x34b0bcb5e19b48a8,
    0x391c0cb3c5c95a63, 0x4ed8aa4ae3418acb,
    0x5b9cca4f7763e373, 0x682e6ff3d6b2b8a3,
    0x748f82ee5defb2fc, 0x78a5636f43172f60,
    0x84c87814a1f0ab72, 0x8cc702081a6439ec,
    0x90befffa23631e28, 0xa4506cebde82bde9,
    0xbef9a3f7b2c67915, 0xc67178f2e372532b,
    0xca273eceea26619c, 0xd186b8c721c0c207,
    0xeada7dd6cde0eb1e, 0xf57d4f7fee6ed178,
    0x06f067aa72176fba, 0x0a637dc5a2c898a6,
    0x113f9804bef90dae, 0x1b710b35131c471b,
    0x28db77f523047d84, 0x32caab7b40c72493,
    0x3c9ebe0a15c9bebc, 0x431d67c49c100d4c,
    0x4cc5d4becb3e42b6, 0x597f299cfc657e2a,
    0x5fcb6fab3ad6faec, 0x6c44198c4a475817,
];

/// The eight working variables of the compression function.
#[derive(Clone, Copy, Debug, PartialEq, Eq, Structural)]
pub struct Working {
    pub a: u64,
    pub b: u64,
    pub c: u64,
    pub d: u64,
    pub e: u64,
    pub f: u64,
    pub g: u64,
    pub h: u64,
}

/// Rotation of `x` to the right by `n` bit positions, `0 < n < 64`.
#[verifier::allow_in_spec]
pub fn rotr(x: u64, n: u64) -> u64
    requires
        0 < n < 64,
    returns
        (x >> n) | (x << (64 - n) as u64),
{
    (x >> n) | (x << (64 - n))
}

/// The choice function: each bit of `x` picks the bit of `y` or of `z`.
#[verifier::allow_in_spec]
pub fn ch(x: u64, y: u64, z: u64) -> u64
    returns
        (x & y) ^ (!x & z),
{
    (x & y) ^ (!x & z)
}

/// The majority function: each bit is the one that at least two of `x`, `y`
/// and `z` have.
#[verifier::allow_in_spec]
pub fn maj(x: u64, y: u64, z: u64) -> u64
    returns
        (x & y) ^ (x & z) ^ (y & z),
{
    (x & y) ^ (x & z) ^ (y & z)
}

/// The function that the rounds apply to the working variable `a`.
#[verifier::allow_in_spec]
pub fn big_sigma0(x: u64) -> u64
    returns
        rotr(x, 28) ^ rotr(x, 34) ^ rotr(x, 39),
{
    rotr(x, 28) ^ rotr(x, 34) ^ rotr(x, 39)
}

/// The function that the rounds apply to the working variable `e`.
#[verifier::allow_in_spec]
pub fn big_sigma1(x: u64) -> u64
    returns
        rotr(x, 14) ^ rotr(x, 18) ^ rotr(x, 41),
{
    rotr(x, 14) ^ rotr(x, 18) ^ rotr(x, 41)
}

/// The function that the message schedule applies to the word 15 places back.
#[verifier::allow_in_spec]
pub fn small_sigma0(x: u64) -> u64
    returns
        rotr(x, 1) ^ rotr(x, 8) ^ (x >> 7),
{
    rotr(x, 1) ^ rotr(x, 8) ^ (x >> 7)
}

/// The function that the message schedule applies to the word 2 places back.
#[verifier::allow_in_spec]
pub fn small_sigma1(x: u64) -> u64
    returns
        rotr(x, 19) ^ rotr(x, 61) ^ (x >> 6),
{
    rotr(x, 19) ^ rotr(x, 61) ^ (x >> 6)
}

/// The `i`-th word of a block, `0 <= i < 16`: eight bytes, the most
/// significant first.
pub open spec fn word_at(block: Seq<u8>, i: int) -> u64 {
    (block[8 * i] * 0x100_0000_0000_0000 + block[8 * i + 1] * 0x1_0000_0000_0000
        + block[8 * i + 2] * 0x100_0000_0000 + block[8 * i + 3] * 0x1_0000_0000
        + block[8 * i + 4] * 0x100_0000 + block[8 * i + 5] * 0x1_0000 + block[8 * i + 6] * 0x100
        + block[8 * i + 7]) as u64
}

/// The word `W_t` of the message schedule, `0 <= t < 80`: the block's own
/// words first, each later one mixed from four earlier ones.
pub open spec fn schedule_word(block: Seq<u8>, t: int) -> u64
    decreases t,
{
    if t < 16 {
        word_at(block, t)
    } else {
        small_sigma1(schedule_word(block, t - 2)).wrapping_add(
            schedule_word(block, t - 7),
        ).wrapping_add(small_sigma0(schedule_word(block, t - 15))).wrapping_add(
            schedule_word(block, t - 16),
        )
    }
}

/// The message schedule of a block: its 80 words.
pub open spec fn schedule(block: Seq<u8>) -> Seq<u64> {
    Seq::new(80, |t: int| schedule_word(block, t))
}

/// One round: the working variables after mixing in the constant `k` and the
/// schedule word `w`.
pub open spec fn round_step(v: Working, k: u64, w: u64) -> Working {
    let t1 = v.h.wrapping_add(big_sigma1(v.e)).wrapping_add(ch(v.e, v.f, v.g)).wrapping_add(
        k,
    ).wrapping_add(w);
    let t2 = big_sigma0(v.a).wrapping_add(maj(v.a, v.b, v.c));
    Working {
        a: t1.wrapping_add(t2),
        b: v.a,
        c: v.b,
        d: v.c,
        e: v.d.wrapping_add(t1),
        f: v.e,
        g: v.f,
        h: v.g,
    }
}

/// The working variables after the first `t` rounds over the schedule `w`.
pub open spec fn rounds_after(init: Working, w: Seq<u64>, t: nat) -> Working
    decreases t,
{
    if t == 0 {
        init
    } else {
        round_step(rounds_after(init, w, (t - 1) as nat), K[t - 1], w[t - 1])
    }
}

/// The state's eight words as working variables.
pub open spec fn working_of(state: Seq<u64>) -> Working {
    Working {
        a: state[0],
        b: state[1],
        c: state[2],
        d: state[3],
        e: state[4],
        f: state[5],
        g: state[6],
        h: state[7],
    }
}

/// The eight working variables as the words of a state.
pub open spec fn words_of(v: Working) -> Seq<u64> {
    seq![v.a, v.b, v.c, v.d, v.e, v.f, v.g, v.h]
}

/// The sum of two sets of working variables, word by word, modulo 2^64.
pub open spec fn word_sums(x: Working, y: Working) -> Working {
    Working {
        a: x.a.wrapping_add(y.a),
        b: x.b.wrapping_add(y.b),
        c: x.c.wrapping_add(y.c),
        d: x.d.wrapping_add(y.d),
        e: x.e.wrapping_add(y.e),
        f: x.f.wrapping_add(y.f),
        g: x.g.wrapping_add(y.g),
        h: x.h.wrapping_add(y.h),
    }
}

/// The compression function on working variables: the chaining value goes
/// through the 80 rounds over the block's schedule and is added to what
/// comes out.
pub open spec fn words_after_block(chain: Working, block: Seq<u8>) -> Working {
    word_sums(chain, rounds_after(chain, schedule(block), 80))
}

/// The compression function: the state that follows `state` once `block` has
/// been compressed into it.
pub open spec fn state_after_block(state: Seq<u64>, block: Seq<u8>) -> Seq<u64> {
    words_of(words_after_block(working_of(state), block))
}

/// The blocks of a slice as byte sequences, in order.
pub open spec fn block_views(blocks: Seq<[u8; 128]>) -> Seq<Seq<u8>> {
    Seq::new(blocks.len(), |i: int| blocks[i]@)
}

/// Chaining: the state after each of `blocks` in turn has been compressed
/// into the state that the one before it left. An empty sequence leaves the
/// state as it is.
pub open spec fn state_after_blocks(state: Seq<u64>, blocks: Seq<Seq<u8>>) -> Seq<u64>
    decreases blocks.len(),
{
    if blocks.len() == 0 {
        state
    } else {
        state_after_block(state_after_blocks(state, blocks.drop_last()), blocks.last())
    }
}

/// What the batched kernel leaves for a batch of at least one block: it
/// compresses the first block, and goes on with the rest for as long as any
/// remain.
pub open spec fn state_after_batch(state: Seq<u64>, blocks: Seq<Seq<u8>>) -> Seq<u64>
    decreases blocks.len(),
{
    let next = state_after_block(state, blocks.first());
    if blocks.len() <= 1 {
        next
    } else {
        state_after_batch(next, blocks.drop_first())
    }
}

/// Chaining can be read from the front: the first block is compressed into
/// the state, and the rest is chained from there.
pub proof fn lemma_chain_from_front(state: Seq<u64>, blocks: Seq<Seq<u8>>)
    requires
        blocks.len() >= 1,
    ensures
        state_after_blocks(state, blocks) == state_after_blocks(
            state_after_block(state, blocks.first()),
            blocks.drop_first(),
        ),
    decreases blocks.len(),
{
    let next = state_after_block(state, blocks.first());
    if blocks.len() == 1 {
        assert(state_after_blocks(state, blocks.drop_last()) == state);
        assert(state_after_blocks(next, blocks.drop_first()) == next);
    } else {
        lemma_chain_from_front(state, blocks.drop_last());
        assert(blocks.drop_last().first() == blocks.first());
        assert(blocks.drop_first().last() == blocks.last());
        assert(blocks.drop_first().drop_last() =~= blocks.drop_last().drop_first());
    }
}

/// Chaining over two runs of blocks, one after the other, is chaining over
/// the first run and then, from the state it left, over the second.
pub proof fn lemma_chain_concat(state: Seq<u64>, first: Seq<Seq<u8>>, second: Seq<Seq<u8>>)
    ensures
        state_after_blocks(state, first + second) == state_after_blocks(
            state_after_blocks(state, first),
            second,
        ),
    decreases second.len(),
{
    if second.len() == 0 {
        assert(first + second =~= first);
    } else {
        lemma_chain_concat(state, first, second.drop_last());
        assert((first + second).drop_last() =~= first + second.drop_last());
    }
}

/// On a batch of at least one block, the batched kernel leaves what
/// sequential chaining leaves.
pub proof fn lemma_batch_is_chain(state: Seq<u64>, blocks: Seq<Seq<u8>>)
    requires
        blocks.len() >= 1,
    ensures
        state_after_batch(state, blocks) == state_after_blocks(state, blocks),
    decreases blocks.len(),
{
    lemma_chain_from_front(state, blocks);
    if blocks.len() > 1 {
        lemma_batch_is_chain(state_after_block(state, blocks.first()), blocks.drop_first());
    }
}

proof fn lemma_pack_word(b0: u64, b1: u64, b2: u64, b3: u64, b4: u64, b5: u64, b6: u64, b7: u64)
    by (bit_vector)
    requires
        b0 < 0x100,
        b1 < 0x100,
        b2 < 0x100,
        b3 < 0x100,
        b4 < 0x100,
        b5 < 0x100,
        b6 < 0x100,
        b7 < 0x100,
    ensures
        (b0 << 56) | (b1 << 48) | (b2 << 40) | (b3 << 32) | (b4 << 24) | (b5 << 16) | (b6 << 8)
            | b7 == b0 * 0x100_0000_0000_0000 + b1 * 0x1_0000_0000_0000 + b2 * 0x100_0000_0000
            + b3 * 0x1_0000_0000 + b4 * 0x100_0000 + b5 * 0x1_0000 + b6 * 0x100 + b7,
{
}

/// Reads the `i`-th word of a block.
pub fn load_word(block: &[u8; 128], i: usize) -> (r: u64)
    requires
        i < 16,
    ensures
        r == word_at(block@, i as int),
{
    let b0: u64 = block[8 * i] as u64;
    let b1: u64 = block[8 * i + 1] as u64;
    let b2: u64 = block[8 * i + 2] as u64;
    let b3: u64 = block[8 * i + 3] as u64;
    let b4: u64 = block[8 * i + 4] as u64;
    let b5: u64 = block[8 * i + 5] as u64;
    let b6: u64 = block[8 * i + 6] as u64;
    let b7: u64 = block[8 * i + 7] as u64;
    proof {
        lemma_pack_word(b0, b1, b2, b3, b4, b5, b6, b7);
    }
    (b0 << 56) | (b1 << 48) | (b2 << 40) | (b3 << 32) | (b4 << 24) | (b5 << 16) | (b6 << 8) | b7
}

/// Expands a block into its message schedule.
pub fn message_schedule(block: &[u8; 128]) -> (w: [u64; 80])
    ensures
        w@ == schedule(block@),
{
    let mut w: [u64; 80] = [0u64; 80];
    let mut t: usize = 0;
    while t < 16
        invariant
            t <= 16,
            forall|j: int| 0 <= j < t ==> w[j] == schedule_word(block@, j),
        decreases 16 - t,
    {
        w[t] = load_word(block, t);
        t += 1;
    }
    while t < 80
        invariant
            16 <= t <= 80,
            forall|j: int| 0 <= j < t ==> w[j] == schedule_word(block@, j),
        decreases 80 - t,
    {
        w[t] = small_sigma1(w[t - 2]).wrapping_add(w[t - 7]).wrapping_add(
            small_sigma0(w[t - 15]),
        ).wrapping_add(w[t - 16]);
        t += 1;
    }
    w
}

/// Runs one round on the working variables.
pub fn round(v: Working, k: u64, w: u64) -> (r: Working)
    ensures
        r == round_step(v, k, w),
{
    let t1: u64 = v.h.wrapping_add(big_sigma1(v.e)).wrapping_add(ch(v.e, v.f, v.g)).wrapping_add(
        k,
    ).wrapping_add(w);
    let t2: u64 = big_sigma0(v.a).wrapping_add(maj(v.a, v.b, v.c));
    Working {
        a: t1.wrapping_add(t2),
        b: v.a,
        c: v.b,
        d: v.c,
        e: v.d.wrapping_add(t1),
        f: v.e,
        g: v.f,
        h: v.g,
    }
}

/// Runs the 80 rounds over a message schedule.
pub fn run_rounds(init: Working, w: &[u64; 80]) -> (r: Working)
    ensures
        r == rounds_after(init, w@, 80),
{
    let mut v: Working = init;
    let mut t: usize = 0;
    while t < 80
        invariant
            t <= 80,
            v == rounds_after(init, w@, t as nat),
        decreases 80 - t,
    {
        v = round(v, K[t], w[t]);
        t += 1;
    }
    v
}

/// Compresses a block into a chaining value held in working variables.
pub fn compress_words(chain: Working, block: &[u8; 128]) -> (r: Working)
    ensures
        r == words_after_block(chain, block@),
{
    let w: [u64; 80] = message_schedule(block);
    let v: Working = run_rounds(chain, &w);
    Working {
        a: chain.a.wrapping_add(v.a),
        b: chain.b.wrapping_add(v.b),
        c: chain.c.wrapping_add(v.c),
        d: chain.d.wrapping_add(v.d),
        e: chain.e.wrapping_add(v.e),
        f: chain.f.wrapping_add(v.f),
        g: chain.g.wrapping_add(v.g),
        h: chain.h.wrapping_add(v.h),
    }
}

/// Reads a state into working variables.
fn load_state(state: &[u64; 8]) -> (chain: Working)
    ensures
        chain == working_of(state@),
{
    Working {
        a: state[0],
        b: state[1],
        c: state[2],
        d: state[3],
        e: state[4],
        f: state[5],
        g: state[6],
        h: state[7],
    }
}

/// Writes working variables back as a state.
fn store_state(state: &mut [u64; 8], chain: Working)
    ensures
        final(state)@ == words_of(chain),
{
    state[0] = chain.a;
    state[1] = chain.b;
    state[2] = chain.c;
    state[3] = chain.d;
    state[4] = chain.e;
    state[5] = chain.f;
    state[6] = chain.g;
    state[7] = chain.h;
}

/// The one-block kernel: compresses `block` into `state`.
pub fn single_block_transform(state: &mut [u64; 8], block: &[u8; 128])
    ensures
        final(state)@ == state_after_block(old(state)@, block@),
{
    let chain: Working = load_state(state);
    store_state(state, compress_words(chain, block));
}

/// The batched kernel: compresses the blocks of a batch into `state`, one
/// after the other, with the chaining value held in working variables from the
/// first block to the last. The batch holds at least one block.
pub fn multi_block_transform(state: &mut [u64; 8], blocks: &[[u8; 128]])
    requires
        blocks@.len() >= 1,
    ensures
        final(state)@ == state_after_batch(old(state)@, block_views(blocks@)),
        final(state)@ == state_after_blocks(old(state)@, block_views(blocks@)),
{
    let n: usize = blocks.len();
    let mut chain: Working = load_state(state);
    let mut i: usize = 0;
    proof {
        lemma_batch_is_chain(state@, block_views(blocks@));
        assert(words_of(chain) =~= state@);
        assert(block_views(blocks@).skip(0) =~= block_views(blocks@));
    }
    loop
        invariant_except_break
            i < n,
            state_after_batch(old(state)@, block_views(blocks@)) == state_after_batch(
                words_of(chain),
                block_views(blocks@).skip(i as int),
            ),
        invariant
            n == blocks@.len(),
        ensures
            words_of(chain) == state_after_batch(old(state)@, block_views(blocks@)),
        decreases n - i,
    {
        proof {
            let rest = block_views(blocks@).skip(i as int);
            assert(rest.first() == blocks@[i as int]@);
            assert(rest.drop_first() =~= block_views(blocks@).skip(i + 1));
        }
        chain = compress_words(chain, &blocks[i]);
        i += 1;
        if i == n {
            break ;
        }
    }
    store_state(state, chain);
}

} // verus!
