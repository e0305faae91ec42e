use sha2_compress::sha512::{
    big_sigma0, big_sigma1, ch, compress_words, load_word, maj, message_schedule,
    multi_block_transform, rotr, round, run_rounds, single_block_transform, small_sigma0,
    small_sigma1, Working, K,
};

const IV: [u64; 8] = [
    0x6a09e667f3bcc908,
    0xbb67ae8584caa73b,
    0x3c6ef372fe94f82b,
    0xa54ff53a5f1d36f1,
    0x510e527fade682d1,
    0x9b05688c2b3e6c1f,
    0x1f83d9abfb41bd6b,
    0x5be0cd19137e2179,
];

fn iv_words() -> Working {
    Working {
        a: IV[0],
        b: IV[1],
        c: IV[2],
        d: IV[3],
        e: IV[4],
        f: IV[5],
        g: IV[6],
        h: IV[7],
    }
}

fn abc_block() -> [u8; 128] {
    let mut block = [0u8; 128];
    block[0] = b'a';
    block[1] = b'b';
    block[2] = b'c';
    block[3] = 0x80;
    block[127] = 24;
    block
}

fn counting_block() -> [u8; 128] {
    let mut block = [0u8; 128];
    for (i, byte) in block.iter_mut().enumerate() {
        *byte = i as u8;
    }
    block
}

#[test]
fn round_constants_512() {
    assert_eq!(K.len(), 80);
    assert_eq!(K[0], 0x428a2f98d728ae22);
    assert_eq!(K[1], 0x7137449123ef65cd);
    assert_eq!(K[63], 0xc67178f2e372532b);
    assert_eq!(K[79], 0x6c44198c4a475817);
}

#[test]
fn rotation_512() {
    assert_eq!(rotr(1, 1), 0x8000_0000_0000_0000);
    assert_eq!(rotr(0x8000_0000_0000_0000, 63), 1);
    assert_eq!(rotr(0x6a09e667f3bcc908, 7), 0x10d413cccfe77992);
    assert_eq!(rotr(0x6a09e667f3bcc908, 32), 0xf3bcc9086a09e667);
    assert_eq!(rotr(u64::MAX, 13), u64::MAX);
    assert_eq!(rotr(0, 5), 0);
}

#[test]
fn choice_and_majority_512() {
    assert_eq!(
        ch(0x6a09e667f3bcc908, 0xbb67ae8584caa73b, 0x3c6ef372fe94f82b),
        0x3e67b7158c88b12b
    );
    assert_eq!(
        maj(0x6a09e667f3bcc908, 0xbb67ae8584caa73b, 0x3c6ef372fe94f82b),
        0x3a6fe667f69ce92b
    );
    assert_eq!(ch(u64::MAX, 0x1234_5678, 0x9abc_def0), 0x1234_5678);
    assert_eq!(ch(0, 0x1234_5678, 0x9abc_def0), 0x9abc_def0);
    assert_eq!(maj(0xff00_ff00, 0xff00_ff00, 0x0f0f_0f0f), 0xff00_ff00);
    assert_eq!(maj(0xff00_ff00, 0x0f0f_0f0f, 0x0f0f_0f0f), 0x0f0f_0f0f);
}

#[test]
fn sigmas_512() {
    assert_eq!(big_sigma0(0x6a09e667f3bcc908), 0x08c4db56aac80c2a);
    assert_eq!(big_sigma1(0x6a09e667f3bcc908), 0x259a6cc1643336ef);
    assert_eq!(small_sigma0(0x6a09e667f3bcc908), 0x3dbae91951caa1df);
    assert_eq!(small_sigma1(0x6a09e667f3bcc908), 0xc8c619e73ee44510);
    assert_eq!(big_sigma0(0), 0);
    assert_eq!(small_sigma0(1), 0x8100_0000_0000_0000);
    assert_eq!(small_sigma1(1), 0x0000_2000_0000_0008);
}

#[test]
fn words_are_read_most_significant_byte_first_512() {
    let block = counting_block();
    assert_eq!(load_word(&block, 0), 0x0001020304050607);
    assert_eq!(load_word(&block, 1), 0x08090a0b0c0d0e0f);
    assert_eq!(load_word(&block, 15), 0x78797a7b7c7d7e7f);
    assert_eq!(load_word(&[0xffu8; 128], 7), u64::MAX);
    assert_eq!(load_word(&abc_block(), 0), 0x6162638000000000);
    assert_eq!(load_word(&abc_block(), 15), 24);
}

#[test]
fn schedule_of_abc_512() {
    let w: [u64; 80] = message_schedule(&abc_block());
    assert_eq!(w[0], 0x6162638000000000);
    for t in 1..15 {
        assert_eq!(w[t], 0);
    }
    assert_eq!(w[15], 0x18);
    assert_eq!(w[16], 0x6162638000000000);
    assert_eq!(w[17], 0x00030000000000c0);
    assert_eq!(w[79], 0x92aeeed1a7bcf7d2);
}

#[test]
fn schedule_of_counting_block_512() {
    let block = counting_block();
    let w: [u64; 80] = message_schedule(&block);
    for t in 0..16 {
        assert_eq!(w[t], load_word(&block, t));
    }
    assert_eq!(w[16], 0xffeba2c62b98ed57);
    assert_eq!(w[79], 0x984146faadc9e6e7);
    for t in 16..80 {
        let expected: u64 = small_sigma1(w[t - 2])
            .wrapping_add(w[t - 7])
            .wrapping_add(small_sigma0(w[t - 15]))
            .wrapping_add(w[t - 16]);
        assert_eq!(w[t], expected);
    }
}

#[test]
fn first_round_of_abc_512() {
    let after = round(iv_words(), K[0], 0x6162638000000000);
    assert_eq!(
        after,
        Working {
            a: 0xf6afceb8bcfcddf5,
            b: 0x6a09e667f3bcc908,
            c: 0xbb67ae8584caa73b,
            d: 0x3c6ef372fe94f82b,
            e: 0x58cb02347ab51f91,
            f: 0x510e527fade682d1,
            g: 0x9b05688c2b3e6c1f,
            h: 0x1f83d9abfb41bd6b,
        }
    );
}

#[test]
fn all_rounds_of_abc_512() {
    let w: [u64; 80] = message_schedule(&abc_block());
    let after = run_rounds(iv_words(), &w);
    assert_eq!(
        after,
        Working {
            a: 0x73a54f399fa4b1b2,
            b: 0x10d9c4c4295599f6,
            c: 0xd67806db8b148677,
            d: 0x654ef9abec389ca9,
            e: 0xd08446aa79693ed7,
            f: 0x9bb4d39778c07f9e,
            g: 0x25c96a7768fb2aa3,
            h: 0xceb9fc3691ce8326,
        }
    );
    let mut by_hand = iv_words();
    for t in 0..80 {
        by_hand = round(by_hand, K[t], w[t]);
    }
    assert_eq!(after, by_hand);
}

#[test]
fn chaining_value_of_abc_512() {
    let after = compress_words(iv_words(), &abc_block());
    assert_eq!(
        after,
        Working {
            a: 0xddaf35a193617aba,
            b: 0xcc417349ae204131,
            c: 0x12e6fa4e89a97ea2,
            d: 0x0a9eeee64b55d39a,
            e: 0x2192992a274fc1a8,
            f: 0x36ba3c23a3feebbd,
            g: 0x454d4423643ce80e,
            h: 0x2a9ac94fa54ca49f,
        }
    );
}

#[test]
fn one_block_kernel_on_abc_512() {
    let mut state: [u64; 8] = IV;
    single_block_transform(&mut state, &abc_block());
    assert_eq!(
        state,
        [
            0xddaf35a193617aba,
            0xcc417349ae204131,
            0x12e6fa4e89a97ea2,
            0x0a9eeee64b55d39a,
            0x2192992a274fc1a8,
            0x36ba3c23a3feebbd,
            0x454d4423643ce80e,
            0x2a9ac94fa54ca49f,
        ]
    );
}

#[test]
fn batched_kernel_on_one_block_512() {
    let mut state: [u64; 8] = IV;
    multi_block_transform(&mut state, &[abc_block()]);
    assert_eq!(
        state,
        [
            0xddaf35a193617aba,
            0xcc417349ae204131,
            0x12e6fa4e89a97ea2,
            0x0a9eeee64b55d39a,
            0x2192992a274fc1a8,
            0x36ba3c23a3feebbd,
            0x454d4423643ce80e,
            0x2a9ac94fa54ca49f,
        ]
    );
}

#[test]
fn batched_kernel_chains_its_blocks_512() {
    let mut down = counting_block();
    down.reverse();
    let blocks = [counting_block(), down, abc_block(), [0u8; 128]];
    let mut batched: [u64; 8] = IV;
    multi_block_transform(&mut batched, &blocks);
    let mut in_turn: [u64; 8] = IV;
    for block in blocks.iter() {
        single_block_transform(&mut in_turn, block);
    }
    assert_eq!(batched, in_turn);
    let mut first_two: [u64; 8] = IV;
    multi_block_transform(&mut first_two, &blocks[..2]);
    assert_eq!(
        first_two,
        [
            0x761a32607b1e3c7d,
            0x8ca5fa2f6802e8f3,
            0x28bd0c2dbec0cf20,
            0xeadc61e9c4f5cb41,
            0xb9ad4cd679d63286,
            0x569df88e738e44db,
            0x0e5d817b9ce99057,
            0x1d786dbe75ac5d7d,
        ]
    );
}
