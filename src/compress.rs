//! The compression step: thirteen bit transforms of a block, folded with the
//! running state into a new state.
use vstd::prelude::*;
use crate::bits::{
    bits_reversed, bytes_of, lemma_reversed_zero, reverse_bits, rotate_right, rotr, word_of,
};

verus! {

/// Number of transformed variants of a block that take part in the fold.
pub const TRANSFORM_COUNT: usize = 13;

/// Every other bit set, starting with the most significant one.
pub const ODD_BITS: u64 = 0xAAAA_AAAA_AAAA_AAAA;

/// Every other bit set, starting with the second most significant one.
pub const EVEN_BITS: u64 = 0x5555_5555_5555_5555;

/// The `i`-th transform of the block word `w`, for `i < 13`.
pub open spec fn transformed(w: u64, i: int) -> u64 {
    if i == 0 {
        !w
    } else if i == 1 {
        rotr(w, 17)
    } else if i == 2 {
        rotr(w, 23)
    } else if i == 3 {
        rotr(w, 32)
    } else if i == 4 {
        bits_reversed(w)
    } else if i == 5 {
        w ^ ODD_BITS
    } else if i == 6 {
        rotr(w, 43)
    } else if i == 7 {
        w ^ EVEN_BITS
    } else if i == 8 {
        rotr(w, 51)
    } else if i == 9 {
        rotr(w, 13)
    } else if i == 10 {
        rotr(w, 37)
    } else if i == 11 {
        rotr(w, 19)
    } else if i == 12 {
        rotr(w, 7)
    } else {
        w
    }
}

/// Row `j` of the fold for state `state` and block word `w`: the state
/// itself first, then the big-endian bytes of each transform in order.
pub open spec fn fold_row(state: Seq<u8>, w: u64, j: int) -> Seq<u8> {
    if j == 0 {
        state
    } else {
        bytes_of(transformed(w, j - 1))
    }
}

/// Byte `p` of the first `k` rows XORed into the seed `0xff`.
pub open spec fn column_fold(state: Seq<u8>, w: u64, p: int, k: nat) -> u8
    decreases k,
{
    if k == 0 {
        0xffu8
    } else {
        column_fold(state, w, p, (k - 1) as nat) ^ fold_row(state, w, k - 1)[p]
    }
}

/// The state that follows `state` once `block` is mixed in: for each byte
/// position, the complement of the fold of all fourteen rows.
pub open spec fn compress(state: Seq<u8>, block: Seq<u8>) -> Seq<u8> {
    Seq::new(8, |p: int| !column_fold(state, word_of(block), p, 14))
}

/// Applies the `i`-th transform to the block word `w`.
pub fn transform(w: u64, i: usize) -> (r: u64)
    requires
        i < TRANSFORM_COUNT,
    ensures
        r == transformed(w, i as int),
{
    match i {
        0 => !w,
        1 => rotate_right(w, 17),
        2 => rotate_right(w, 23),
        3 => rotate_right(w, 32),
        4 => reverse_bits(w),
        5 => w ^ ODD_BITS,
        6 => rotate_right(w, 43),
        7 => w ^ EVEN_BITS,
        8 => rotate_right(w, 51),
        9 => rotate_right(w, 13),
        10 => rotate_right(w, 37),
        11 => rotate_right(w, 19),
        _ => rotate_right(w, 7),
    }
}

/// Byte `p` of all fourteen rows XORed together, with no seed.
pub open spec fn plain_xor(state: Seq<u8>, w: u64, p: int) -> u8 {
    fold_row(state, w, 0)[p] ^ fold_row(state, w, 1)[p] ^ fold_row(state, w, 2)[p] ^ fold_row(
        state,
        w,
        3,
    )[p] ^ fold_row(state, w, 4)[p] ^ fold_row(state, w, 5)[p] ^ fold_row(state, w, 6)[p]
        ^ fold_row(state, w, 7)[p] ^ fold_row(state, w, 8)[p] ^ fold_row(state, w, 9)[p]
        ^ fold_row(state, w, 10)[p] ^ fold_row(state, w, 11)[p] ^ fold_row(state, w, 12)[p]
        ^ fold_row(state, w, 13)[p]
}

/// The seed `0xff` and the closing complement cancel: each byte of the new
/// state is the plain XOR of that byte of the state and of the thirteen
/// transformed blocks.
pub proof fn lemma_compress_is_plain_xor(state: Seq<u8>, block: Seq<u8>, p: int)
    requires
        0 <= p < 8,
    ensures
        compress(state, block)[p] == plain_xor(state, word_of(block), p),
{
    let w = word_of(block);
    let r0 = fold_row(state, w, 0)[p];
    let r1 = fold_row(state, w, 1)[p];
    let r2 = fold_row(state, w, 2)[p];
    let r3 = fold_row(state, w, 3)[p];
    let r4 = fold_row(state, w, 4)[p];
    let r5 = fold_row(state, w, 5)[p];
    let r6 = fold_row(state, w, 6)[p];
    let r7 = fold_row(state, w, 7)[p];
    let r8 = fold_row(state, w, 8)[p];
    let r9 = fold_row(state, w, 9)[p];
    let r10 = fold_row(state, w, 10)[p];
    let r11 = fold_row(state, w, 11)[p];
    let r12 = fold_row(state, w, 12)[p];
    let r13 = fold_row(state, w, 13)[p];
    assert(column_fold(state, w, p, 0) == 0xffu8);
    assert(column_fold(state, w, p, 1) == 0xffu8 ^ r0);
    assert(column_fold(state, w, p, 2) == 0xffu8 ^ r0 ^ r1);
    assert(column_fold(state, w, p, 3) == 0xffu8 ^ r0 ^ r1 ^ r2);
    assert(column_fold(state, w, p, 4) == 0xffu8 ^ r0 ^ r1 ^ r2 ^ r3);
    assert(column_fold(state, w, p, 5) == 0xffu8 ^ r0 ^ r1 ^ r2 ^ r3 ^ r4);
    assert(column_fold(state, w, p, 6) == 0xffu8 ^ r0 ^ r1 ^ r2 ^ r3 ^ r4 ^ r5);
    assert(column_fold(state, w, p, 7) == 0xffu8 ^ r0 ^ r1 ^ r2 ^ r3 ^ r4 ^ r5 ^ r6);
    assert(column_fold(state, w, p, 8) == 0xffu8 ^ r0 ^ r1 ^ r2 ^ r3 ^ r4 ^ r5 ^ r6 ^ r7);
    assert(column_fold(state, w, p, 9) == 0xffu8 ^ r0 ^ r1 ^ r2 ^ r3 ^ r4 ^ r5 ^ r6 ^ r7 ^ r8);
    assert(column_fold(state, w, p, 10) == 0xffu8 ^ r0 ^ r1 ^ r2 ^ r3 ^ r4 ^ r5 ^ r6 ^ r7 ^ r8 ^ r9);
    assert(column_fold(state, w, p, 11) == 0xffu8 ^ r0 ^ r1 ^ r2 ^ r3 ^ r4 ^ r5 ^ r6 ^ r7 ^ r8 ^ r9 ^ r10);
    assert(column_fold(state, w, p, 12) == 0xffu8 ^ r0 ^ r1 ^ r2 ^ r3 ^ r4 ^ r5 ^ r6 ^ r7 ^ r8 ^ r9 ^ r10 ^ r11);
    assert(column_fold(state, w, p, 13) == 0xffu8 ^ r0 ^ r1 ^ r2 ^ r3 ^ r4 ^ r5 ^ r6 ^ r7 ^ r8 ^ r9 ^ r10 ^ r11 ^ r12);
    assert(column_fold(state, w, p, 14) == 0xffu8 ^ r0 ^ r1 ^ r2 ^ r3 ^ r4 ^ r5 ^ r6 ^ r7 ^ r8 ^ r9 ^ r10 ^ r11 ^ r12 ^ r13);
    assert(!(0xffu8 ^ r0 ^ r1 ^ r2 ^ r3 ^ r4 ^ r5 ^ r6 ^ r7 ^ r8 ^ r9 ^ r10 ^ r11 ^ r12 ^ r13) == r0 ^ r1 ^ r2 ^ r3 ^ r4 ^ r5 ^ r6 ^ r7 ^ r8 ^ r9 ^ r10 ^ r11 ^ r12 ^ r13) by (bit_vector);
}

/// An all-zero block leaves any state unchanged: the complement, the two
/// alternating masks and the zero words of every rotation and of the bit
/// reversal cancel byte by byte.
pub proof fn lemma_zero_block_keeps_state(state: Seq<u8>)
    requires
        state.len() == 8,
    ensures
        compress(state, Seq::new(8, |k: int| 0u8)) == state,
{
    let zeros = Seq::new(8, |k: int| 0u8);
    let (z0, z1, z2, z3, z4, z5, z6, z7) = (
        zeros[0],
        zeros[1],
        zeros[2],
        zeros[3],
        zeros[4],
        zeros[5],
        zeros[6],
        zeros[7],
    );
    assert(word_of(zeros) == 0) by {
        assert(((z0 as u64) << 56u64) | ((z1 as u64) << 48u64) | ((z2 as u64) << 40u64) | ((
        z3 as u64) << 32u64) | ((z4 as u64) << 24u64) | ((z5 as u64) << 16u64) | ((z6 as u64)
            << 8u64) | (z7 as u64) == 0) by (bit_vector)
            requires
                z0 == 0 && z1 == 0 && z2 == 0 && z3 == 0 && z4 == 0 && z5 == 0 && z6 == 0 && z7
                    == 0,
        ;
    }
    lemma_reversed_zero(64);
    assert forall|n: u64| 0 < n < 64 implies #[trigger] rotr(0, n) == 0 by {
        assert((0u64 >> n) | (0u64 << ((64 - n) as u64)) == 0) by (bit_vector);
    }
    assert forall|p: int| 0 <= p < 8 implies bytes_of(0)[p] == 0u8 && bytes_of(!0u64)[p]
        == 0xffu8 && bytes_of(ODD_BITS)[p] == 0xaau8 && bytes_of(EVEN_BITS)[p] == 0x55u8 by {
        assert(bytes_of(0) =~= seq![0u8, 0u8, 0u8, 0u8, 0u8, 0u8, 0u8, 0u8]) by {
            assert((0u64 >> 56u64) as u8 == 0 && (0u64 >> 48u64) as u8 == 0 && (0u64
                >> 40u64) as u8 == 0 && (0u64 >> 32u64) as u8 == 0 && (0u64 >> 24u64) as u8
                == 0 && (0u64 >> 16u64) as u8 == 0 && (0u64 >> 8u64) as u8 == 0 && 0u64 as u8
                == 0) by (bit_vector);
        }
        let m = !0u64;
        assert((m >> 56u64) as u8 == 0xff && (m >> 48u64) as u8 == 0xff && (m >> 40u64) as u8
            == 0xff && (m >> 32u64) as u8 == 0xff && (m >> 24u64) as u8 == 0xff && (m
            >> 16u64) as u8 == 0xff && (m >> 8u64) as u8 == 0xff && m as u8 == 0xff)
            by (bit_vector)
            requires
                m == !0u64,
        ;
        let a = ODD_BITS;
        assert((a >> 56u64) as u8 == 0xaa && (a >> 48u64) as u8 == 0xaa && (a >> 40u64) as u8
            == 0xaa && (a >> 32u64) as u8 == 0xaa && (a >> 24u64) as u8 == 0xaa && (a
            >> 16u64) as u8 == 0xaa && (a >> 8u64) as u8 == 0xaa && a as u8 == 0xaa)
            by (bit_vector)
            requires
                a == 0xAAAA_AAAA_AAAA_AAAAu64,
        ;
        let e = EVEN_BITS;
        assert((e >> 56u64) as u8 == 0x55 && (e >> 48u64) as u8 == 0x55 && (e >> 40u64) as u8
            == 0x55 && (e >> 32u64) as u8 == 0x55 && (e >> 24u64) as u8 == 0x55 && (e
            >> 16u64) as u8 == 0x55 && (e >> 8u64) as u8 == 0x55 && e as u8 == 0x55)
            by (bit_vector)
            requires
                e == 0x5555_5555_5555_5555u64,
        ;
    }
    assert forall|p: int| 0 <= p < 8 implies #[trigger] compress(state, zeros)[p] == state[p] by {
        lemma_compress_is_plain_xor(state, zeros, p);
        assert(rotr(0, 17) == 0 && rotr(0, 23) == 0 && rotr(0, 32) == 0 && rotr(0, 43) == 0
            && rotr(0, 51) == 0 && rotr(0, 13) == 0 && rotr(0, 37) == 0 && rotr(0, 19) == 0
            && rotr(0, 7) == 0);
        assert(0u64 ^ ODD_BITS == ODD_BITS && 0u64 ^ EVEN_BITS == EVEN_BITS) by (bit_vector);
        let s = state[p];
        assert(s ^ 0xffu8 ^ 0u8 ^ 0u8 ^ 0u8 ^ 0u8 ^ 0xaau8 ^ 0u8 ^ 0x55u8 ^ 0u8 ^ 0u8 ^ 0u8
            ^ 0u8 ^ 0u8 == s) by (bit_vector);
    }
    assert(compress(state, zeros) =~= state);
}

} // verus!
