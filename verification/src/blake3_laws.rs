//! What holds of BLAKE3, layer by layer: rotations, mixing, rounds, compression,
//! leaves, parents, the tree and the modes.
use vstd::arithmetic::power2::*;
use vstd::prelude::*;

use crate::blake3_spec::{Mode, NodeModel, MSG_SCHEDULE};

verus! {

/// Bit `i` of a word that was rotated right by `n` is its bit `i + n`, counted
/// round.
pub proof fn law_rotation_moves_bits(x: u32, n: u32, i: u32)
    requires
        0 < n < 32,
        i < 32,
    ensures
        (crate::blake3_spec::rotr(x, n) >> i) & 1 == (x >> (((i + n) % 32) as u32)) & 1,
{
    let left = (32 - n) as u32;
    let at = ((i + n) % 32) as u32;
    assert((((x >> n) | (x << left)) >> i) & 1 == (x >> at) & 1) by (bit_vector)
        requires
            0 < n < 32,
            i < 32,
            left == 32 - n,
            at == (i + n) % 32,
    ;
}

/// Rotations by `n` and by what is missing to 32 undo one another.
proof fn lemma_rotations_cancel(x: u32)
    ensures
        crate::blake3_spec::rotr(crate::blake3_spec::rotr(x, 16), 16) == x,
        crate::blake3_spec::rotr(crate::blake3_spec::rotr(x, 12), 20) == x,
        crate::blake3_spec::rotr(crate::blake3_spec::rotr(x, 8), 24) == x,
        crate::blake3_spec::rotr(crate::blake3_spec::rotr(x, 7), 25) == x,
{
    let a = (x >> 16) | (x << 16);
    assert((a >> 16) | (a << 16) == x) by (bit_vector)
        requires
            a == (x >> 16) | (x << 16),
    ;
    let b = (x >> 12) | (x << 20);
    assert((b >> 20) | (b << 12) == x) by (bit_vector)
        requires
            b == (x >> 12) | (x << 20),
    ;
    let c = (x >> 8) | (x << 24);
    assert((c >> 24) | (c << 8) == x) by (bit_vector)
        requires
            c == (x >> 8) | (x << 24),
    ;
    let d = (x >> 7) | (x << 25);
    assert((d >> 25) | (d << 7) == x) by (bit_vector)
        requires
            d == (x >> 7) | (x << 25),
    ;
}

/// A word combined twice with another is as it was.
proof fn lemma_xor_cancels(x: u32, y: u32)
    ensures
        (x ^ y) ^ y == x,
{
    assert((x ^ y) ^ y == x) by (bit_vector);
}

/// A word that was added with wrapping is subtracted again modulo 2^32.
proof fn lemma_sum_cancels(p: u32, q: u32, r: u32)
    ensures
        (p.wrapping_add(q) - q) % 0x1_0000_0000 == p,
        (p.wrapping_add(q).wrapping_add(r) - q - r) % 0x1_0000_0000 == p,
{
}

/// Mixing can be undone step by step: rotating back, combining again and
/// subtracting gives the four words from before, and the other words were left
/// alone.
#[verifier::spinoff_prover]
#[verifier::rlimit(40)]
pub proof fn law_mixing_can_be_undone(
    state: Seq<u32>,
    a: int,
    b: int,
    c: int,
    d: int,
    x: u32,
    y: u32,
)
    requires
        state.len() == 16,
        0 <= a < 16 && 0 <= b < 16 && 0 <= c < 16 && 0 <= d < 16,
        a != b && a != c && a != d && b != c && b != d && c != d,
    ensures
        ({
            let r = crate::blake3_spec::mixed(state, a, b, c, d, x, y);
            let b1 = crate::blake3_spec::rotr(r[b], 25) ^ r[c];
            let c1 = ((r[c] - r[d]) % 0x1_0000_0000) as u32;
            let d1 = crate::blake3_spec::rotr(r[d], 24) ^ r[a];
            let a1 = ((r[a] - b1 - y) % 0x1_0000_0000) as u32;
            let b0 = crate::blake3_spec::rotr(b1, 20) ^ c1;
            let c0 = (c1 - d1) % 0x1_0000_0000;
            let d0 = crate::blake3_spec::rotr(d1, 16) ^ a1;
            let a0 = (a1 - b0 - x) % 0x1_0000_0000;
            &&& r.len() == 16
            &&& state[a] == a0 && state[b] == b0 && state[c] == c0 && state[d] == d0
            &&& forall|i: int|
                0 <= i < 16 && i != a && i != b && i != c && i != d ==> #[trigger] r[i] == state[i]
        }),
{
    let r = crate::blake3_spec::mixed(state, a, b, c, d, x, y);
    let a1 = state[a].wrapping_add(state[b]).wrapping_add(x);
    let d1 = crate::blake3_spec::rotr(state[d] ^ a1, 16);
    let c1 = state[c].wrapping_add(d1);
    let b1 = crate::blake3_spec::rotr(state[b] ^ c1, 12);
    let a2 = a1.wrapping_add(b1).wrapping_add(y);
    let d2 = crate::blake3_spec::rotr(d1 ^ a2, 8);
    let c2 = c1.wrapping_add(d2);
    let b2 = crate::blake3_spec::rotr(b1 ^ c2, 7);
    assert(r[a] == a2 && r[b] == b2 && r[c] == c2 && r[d] == d2);
    lemma_sum_cancels(state[a], state[b], x);
    lemma_sum_cancels(state[c], d1, 0);
    lemma_sum_cancels(a1, b1, y);
    lemma_sum_cancels(c1, d2, 0);
    lemma_rotations_cancel(b1 ^ c2);
    lemma_xor_cancels(b1, c2);
    lemma_rotations_cancel(d1 ^ a2);
    lemma_xor_cancels(d1, a2);
    lemma_rotations_cancel(state[b] ^ c1);
    lemma_xor_cancels(state[b], c1);
    lemma_rotations_cancel(state[d] ^ a1);
    lemma_xor_cancels(state[d], a1);
}

/// Each round reads the message words in the order of the one before, moved by one
/// and the same permutation; the first round reads them as they come.
pub proof fn law_schedule_permutes()
    ensures
        forall|i: int| 0 <= i < 16 ==> #[trigger] MSG_SCHEDULE@[0]@[i] == i,
        forall|r: int, i: int|
            0 <= r < 6 && 0 <= i < 16 ==> #[trigger] MSG_SCHEDULE@[r + 1]@[i]
                == MSG_SCHEDULE@[r]@[seq![2int, 6, 3, 10, 7, 0, 4, 13, 1, 11, 12, 5, 9, 14, 15, 8][i]],
{
}

/// A round mixes the four columns of the state, then its four diagonals, each with
/// the next two message words of the round's order.
pub proof fn law_round_mixes_columns_then_diagonals(state: Seq<u32>, msg: Seq<u32>, r: int)
    ensures
        ({
            let at = MSG_SCHEDULE@[r]@;
            let s = state;
            let s = crate::blake3_spec::mixed(s, 0, 4, 8, 12, msg[at[0] as int], msg[at[1] as int]);
            let s = crate::blake3_spec::mixed(s, 1, 5, 9, 13, msg[at[2] as int], msg[at[3] as int]);
            let s = crate::blake3_spec::mixed(s, 2, 6, 10, 14, msg[at[4] as int], msg[at[5] as int]);
            let s = crate::blake3_spec::mixed(s, 3, 7, 11, 15, msg[at[6] as int], msg[at[7] as int]);
            let s = crate::blake3_spec::mixed(s, 0, 5, 10, 15, msg[at[8] as int], msg[at[9] as int]);
            let s = crate::blake3_spec::mixed(
                s,
                1,
                6,
                11,
                12,
                msg[at[10] as int],
                msg[at[11] as int],
            );
            let s = crate::blake3_spec::mixed(
                s,
                2,
                7,
                8,
                13,
                msg[at[12] as int],
                msg[at[13] as int],
            );
            let s = crate::blake3_spec::mixed(
                s,
                3,
                4,
                9,
                14,
                msg[at[14] as int],
                msg[at[15] as int],
            );
            crate::blake3_spec::round_mixed(state, msg, r) == s
        }),
{
}

/// No round leaves the state as it is, and each further one mixes what the rounds
/// before it gave.
pub proof fn law_rounds_follow_one_another(state: Seq<u32>, msg: Seq<u32>, n: nat)
    ensures
        crate::blake3_spec::rounds_mixed(state, msg, 0) == state,
        crate::blake3_spec::rounds_mixed(state, msg, n + 1) == crate::blake3_spec::round_mixed(
            crate::blake3_spec::rounds_mixed(state, msg, n),
            msg,
            n as int,
        ),
{
}

/// Compression runs seven rounds over sixteen words and combines the two halves of
/// what comes out. The words are the chaining value, the first half of the initial
/// one, the low and the high half of the counter, the length and the flags; the
/// message is the block read as little-endian words.
pub proof fn law_compression(
    cv: Seq<u32>,
    block: Seq<u8>,
    counter: u64,
    block_len: u8,
    flags: u8,
    start: Seq<u32>,
    words: Seq<u32>,
)
    requires
        start.len() == 16,
        forall|i: int| 0 <= i < 8 ==> #[trigger] start[i] == cv[i],
        start[8] == 0x6A09E667,
        start[9] == 0xBB67AE85,
        start[10] == 0x3C6EF372,
        start[11] == 0xA54FF53A,
        start[12] + 0x1_0000_0000 * start[13] == counter,
        start[14] == block_len,
        start[15] == flags,
        words.len() == 16,
        forall|i: int|
            0 <= i < 16 ==> #[trigger] words[i] == block[4 * i] + 256 * block[4 * i + 1] + 65536
                * block[4 * i + 2] + 16777216 * block[4 * i + 3],
    ensures
        ({
            let last = crate::blake3_spec::rounds_mixed(start, words, 7);
            let out = crate::blake3_spec::compressed(cv, block, counter, block_len, flags);
            &&& out.len() == 8
            &&& forall|i: int| 0 <= i < 8 ==> #[trigger] out[i] == last[i] ^ last[i + 8]
        }),
{
    reveal(crate::blake3_spec::compressed);
    assert(start =~= crate::blake3_spec::initial_state(cv, counter, block_len, flags));
    assert forall|i: int| 0 <= i < 16 implies #[trigger] words[i]
        == crate::blake3_spec::message_words(block)[i] by {
        assert(words[i] == block[4 * i] + 256 * block[4 * i + 1] + 65536 * block[4 * i + 2]
            + 16777216 * block[4 * i + 3]);
    }
    assert(words =~= crate::blake3_spec::message_words(block));
}

/// Eight words become thirty-two bytes, of which each four read little-endian are
/// one word.
pub proof fn law_words_are_little_endian(words: Seq<u32>, i: int)
    requires
        0 <= i < 8,
    ensures
        ({
            let b = crate::blake3_spec::word_bytes(words);
            &&& b.len() == 32
            &&& words[i] == b[4 * i] + 256 * b[4 * i + 1] + 65536 * b[4 * i + 2] + 16777216 * b[4
                * i + 3]
        }),
{
    let b = crate::blake3_spec::word_bytes(words);
    let w = words[i];
    let four = crate::blake3_spec::le_bytes(w);
    assert((4 * i) / 4 == i && (4 * i + 1) / 4 == i && (4 * i + 2) / 4 == i && (4 * i + 3) / 4
        == i);
    assert(b[4 * i] == four[0]);
    assert(b[4 * i + 1] == four[1]);
    assert(b[4 * i + 2] == four[2]);
    assert(b[4 * i + 3] == four[3]);
}

/// A chunk starts from the key words, and each of its blocks of 64 bytes, as it
/// stands, is compressed onto what the blocks before it gave; the first block
/// carries the flag of a chunk's start.
pub proof fn law_blocks_follow_one_another(mode: Mode, chunk: Seq<u8>, counter: u64, n: nat)
    ensures
        crate::blake3_spec::chunk_cv(mode, chunk, counter, 0) == mode.key,
        crate::blake3_spec::chunk_cv(mode, chunk, counter, n + 1) == crate::blake3_spec::compressed(
            crate::blake3_spec::chunk_cv(mode, chunk, counter, n),
            chunk.subrange(64 * n as int, 64 * n as int + 64),
            counter,
            64,
            mode.flag | if n == 0 {
                1u8
            } else {
                0u8
            },
        ),
{
}

/// The leaf of a chunk holds its last block, the bytes that `n` whole blocks leave
/// over, filled up with zeros, and what the blocks before it gave.
pub proof fn law_leaf_holds_the_last_block(mode: Mode, chunk: Seq<u8>, counter: u64, n: nat)
    requires
        64 * n < chunk.len() <= 64 * n + 64 || (chunk.len() == 0 && n == 0),
    ensures
        ({
            let leaf = crate::blake3_spec::chunk_leaf(mode, chunk, counter);
            &&& leaf.cv == crate::blake3_spec::chunk_cv(mode, chunk, counter, n)
            &&& leaf.block.len() == 64
            &&& forall|j: int|
                0 <= j < 64 ==> #[trigger] leaf.block[j] == if 64 * n + j < chunk.len() {
                    chunk[64 * n + j]
                } else {
                    0u8
                }
            &&& leaf.block_len == chunk.len() - 64 * n
            &&& leaf.counter == counter
            &&& leaf.flags == mode.flag | 2 | if n == 0 {
                1u8
            } else {
                0u8
            }
        }),
{
    assert(n == crate::blake3_spec::leading_blocks(chunk.len()));
}

/// A parent starts from the key words and holds the left chaining value followed by
/// the right one.
pub proof fn law_parent_holds_both_sides(mode: Mode, left: Seq<u8>, right: Seq<u8>)
    requires
        left.len() == 32,
        right.len() == 32,
    ensures
        ({
            let parent = crate::blake3_spec::joined(mode, left, right);
            &&& parent.cv == mode.key
            &&& parent.block.len() == 64
            &&& forall|j: int| 0 <= j < 32 ==> #[trigger] parent.block[j] == left[j]
            &&& forall|j: int| 32 <= j < 64 ==> #[trigger] parent.block[j] == right[j - 32]
            &&& parent.block_len == 64
            &&& parent.counter == 0
            &&& parent.flags == mode.flag | 4
        }),
{
}

/// A node hands its compressed block to its parent, as bytes; as the root it does so
/// with one more flag.
pub proof fn law_node_is_compressed(node: NodeModel)
    ensures
        node.chaining_value() == crate::blake3_spec::word_bytes(
            crate::blake3_spec::compressed(
                node.cv,
                node.block,
                node.counter,
                node.block_len,
                node.flags,
            ),
        ),
        node.root_value() == crate::blake3_spec::word_bytes(
            crate::blake3_spec::compressed(
                node.cv,
                node.block,
                node.counter,
                node.block_len,
                node.flags | 8,
            ),
        ),
{
}

/// The tree over one chunk is the leaf of 1024 bytes of the input, or of what is
/// left of it, unaltered.
pub proof fn law_leaves_are_stretches_of_the_input(mode: Mode, input: Seq<u8>, i: nat)
    requires
        1024 * i < input.len() || i == 0,
    ensures
        crate::blake3_spec::subtree(mode, input, i, 1) == crate::blake3_spec::chunk_leaf(
            mode,
            input.subrange(
                1024 * i as int,
                vstd::math::min(1024 * i as int + 1024, input.len() as int),
            ),
            i as u64,
        ),
{
}

/// A tree over more chunks than a power of two, but no more than twice as many,
/// joins the tree over that many chunks with the tree over the rest.
pub proof fn law_trees_join_at_a_power_of_two(
    mode: Mode,
    input: Seq<u8>,
    first: nat,
    e: nat,
    rest: nat,
)
    requires
        0 < rest <= pow2(e),
    ensures
        crate::blake3_spec::subtree(mode, input, first, pow2(e) + rest)
            == crate::blake3_spec::joined(
            mode,
            crate::blake3_spec::subtree(mode, input, first, pow2(e)).chaining_value(),
            crate::blake3_spec::subtree(mode, input, first + pow2(e), rest).chaining_value(),
        ),
{
    lemma_pow2_pos(e);
    crate::blake3_tree::lemma_lowest_bit_of_odd_multiple(1, e);
    crate::blake3_tree::lemma_left_size_of_sum(pow2(e), rest);
}

/// A hash is the root of the tree over all chunks of the input: one for an empty
/// input, else as many as it takes at 1024 bytes each.
pub proof fn law_hash_is_the_root(mode: Mode, input: Seq<u8>, n: nat)
    requires
        n > 0,
        1024 * (n - 1) < input.len() <= 1024 * n || (input.len() == 0 && n == 1),
    ensures
        crate::blake3_spec::tree_hash(mode, input) == crate::blake3_spec::subtree(
            mode,
            input,
            0,
            n,
        ).root_value(),
{
    assert(n == crate::blake3_spec::chunk_count(input.len()));
}

/// A context is hashed as it stands, whatever its bytes are: its hash is that of
/// the tree over these bytes, with the initial words as key and the flag 32.
pub proof fn law_context_is_hashed_as_it_stands(ctx: Seq<u8>)
    ensures
        crate::blake3_spec::context_hash(ctx) == crate::blake3_spec::tree_hash(
            (Mode {
                key: seq![
                    0x6A09E667u32,
                    0xBB67AE85,
                    0x3C6EF372,
                    0xA54FF53A,
                    0x510E527F,
                    0x9B05688C,
                    0x1F83D9AB,
                    0x5BE0CD19,
                ],
                flag: 32,
            }),
            ctx,
        ),
{
    lemma_initial_words();
}

/// The initial words, one by one.
pub proof fn lemma_initial_words()
    ensures
        crate::blake3_spec::IV@ == seq![
            0x6A09E667u32,
            0xBB67AE85,
            0x3C6EF372,
            0xA54FF53A,
            0x510E527F,
            0x9B05688C,
            0x1F83D9AB,
            0x5BE0CD19,
        ],
{
    assert(crate::blake3_spec::IV@ =~= seq![
        0x6A09E667u32,
        0xBB67AE85,
        0x3C6EF372,
        0xA54FF53A,
        0x510E527F,
        0x9B05688C,
        0x1F83D9AB,
        0x5BE0CD19,
    ]);
}

/// A context of at most 64 bytes, whatever they are, is hashed by one compression
/// of these bytes filled up with zeros, with the flags of a context, of the start
/// and end of a chunk and of the root.
pub proof fn law_short_context_is_one_compression(ctx: Seq<u8>, block: Seq<u8>)
    requires
        ctx.len() <= 64,
        block.len() == 64,
        forall|i: int| 0 <= i < ctx.len() ==> #[trigger] block[i] == ctx[i],
        forall|i: int| ctx.len() <= i < 64 ==> #[trigger] block[i] == 0,
    ensures
        crate::blake3_spec::context_hash(ctx) == crate::blake3_spec::word_bytes(
            crate::blake3_spec::compressed(
                seq![
                    0x6A09E667u32,
                    0xBB67AE85,
                    0x3C6EF372,
                    0xA54FF53A,
                    0x510E527F,
                    0x9B05688C,
                    0x1F83D9AB,
                    0x5BE0CD19,
                ],
                block,
                0,
                ctx.len() as u8,
                43,
            ),
        ),
{
    let mode = crate::blake3_spec::context_mode();
    lemma_initial_words();
    law_hash_is_the_root(mode, ctx, 1);
    law_leaves_are_stretches_of_the_input(mode, ctx, 0);
    assert(ctx.subrange(0, ctx.len() as int) =~= ctx);
    law_leaf_holds_the_last_block(mode, ctx, 0, 0);
    let leaf = crate::blake3_spec::chunk_leaf(mode, ctx, 0);
    assert(leaf.block =~= block);
    assert(((32u8 | 2) | 1) | 8 == 43) by (bit_vector);
}

} // verus!
