//! Big-endian conversion between eight bytes and a 64-bit word, and the bit
//! permutations that the compression step applies to a word.
use vstd::prelude::*;

verus! {

/// The word whose big-endian bytes are `b[0..8]`.
pub open spec fn word_of(b: Seq<u8>) -> u64
    recommends
        b.len() == 8,
{
    ((b[0] as u64) << 56u64) | ((b[1] as u64) << 48u64) | ((b[2] as u64) << 40u64) | ((
    b[3] as u64) << 32u64) | ((b[4] as u64) << 24u64) | ((b[5] as u64) << 16u64) | ((
    b[6] as u64) << 8u64) | (b[7] as u64)
}

/// The eight big-endian bytes of `w`, most significant first.
pub open spec fn bytes_of(w: u64) -> Seq<u8> {
    seq![
        (w >> 56u64) as u8,
        (w >> 48u64) as u8,
        (w >> 40u64) as u8,
        (w >> 32u64) as u8,
        (w >> 24u64) as u8,
        (w >> 16u64) as u8,
        (w >> 8u64) as u8,
        w as u8,
    ]
}

/// `x` rotated right by `n` bit positions, for `0 < n < 64`.
pub open spec fn rotr(x: u64, n: u64) -> u64
    recommends
        0 < n < 64,
{
    (x >> n) | (x << ((64 - n) as u64))
}

/// The low `n` bits of `x` in reverse order: bit `n - 1 - k` of the result is
/// bit `k` of `x`, for `k < n`.
pub open spec fn reversed_low_bits(x: u64, n: nat) -> u64
    decreases n,
{
    if n == 0 {
        0
    } else {
        (reversed_low_bits(x, (n - 1) as nat) << 1u64) | ((x >> ((n - 1) as u64)) & 1u64)
    }
}

/// `x` with the order of all 64 bits reversed.
pub open spec fn bits_reversed(x: u64) -> u64 {
    reversed_low_bits(x, 64)
}

/// Reads eight bytes as a big-endian word.
pub fn word_from_be(b: &[u8; 8]) -> (w: u64)
    ensures
        w == word_of(b@),
{
    ((b[0] as u64) << 56) | ((b[1] as u64) << 48) | ((b[2] as u64) << 40) | ((b[3] as u64)
        << 32) | ((b[4] as u64) << 24) | ((b[5] as u64) << 16) | ((b[6] as u64) << 8) | (
    b[7] as u64)
}

/// Writes a word as eight big-endian bytes.
pub fn word_to_be(w: u64) -> (b: [u8; 8])
    ensures
        b@ == bytes_of(w),
{
    let b: [u8; 8] = [
        (w >> 56) as u8,
        (w >> 48) as u8,
        (w >> 40) as u8,
        (w >> 32) as u8,
        (w >> 24) as u8,
        (w >> 16) as u8,
        (w >> 8) as u8,
        w as u8,
    ];
    assert(b@ =~= bytes_of(w));
    b
}

/// Rotates `x` right by `n` bit positions.
pub fn rotate_right(x: u64, n: u64) -> (r: u64)
    requires
        0 < n < 64,
    ensures
        r == rotr(x, n),
{
    (x >> n) | (x << (64 - n))
}

/// Reverses the order of the 64 bits of `x`.
pub fn reverse_bits(x: u64) -> (r: u64)
    ensures
        r == bits_reversed(x),
{
    let mut r: u64 = 0;
    let mut i: u64 = 0;
    while i < 64
        invariant
            i <= 64,
            r == reversed_low_bits(x, i as nat),
        decreases 64 - i,
    {
        r = (r << 1) | ((x >> i) & 1);
        i = i + 1;
    }
    r
}

/// Reversing the bits of zero gives zero.
pub proof fn lemma_reversed_zero(n: nat)
    ensures
        reversed_low_bits(0, n) == 0,
    decreases n,
{
    if n > 0 {
        lemma_reversed_zero((n - 1) as nat);
        let k = (n - 1) as u64;
        assert((0u64 << 1u64) | ((0u64 >> k) & 1u64) == 0) by (bit_vector);
    }
}

} // verus!
