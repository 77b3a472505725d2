//! Cutting a message into blocks: real bytes first, then the one-byte length
//! marker in the first position that no message byte fills, zeros after it.
use vstd::prelude::*;
use crate::BLOCK_SIZE;

verus! {

/// The block that starts at `offset` of `msg`. Position `k` holds the message
/// byte at `offset + k` while there is one; the position just past the end of
/// the message holds `len(msg) mod 256`; every other position is zero. A block
/// that the message fills completely holds no marker.
pub open spec fn block_at(msg: Seq<u8>, offset: int) -> Seq<u8> {
    Seq::new(
        8,
        |k: int|
            if offset + k < msg.len() {
                msg[offset + k]
            } else if offset + k == msg.len() {
                (msg.len() % 256) as u8
            } else {
                0u8
            },
    )
}

/// Builds the block that starts at `offset` of `data`.
pub fn fill_block(data: &[u8], offset: usize) -> (b: [u8; BLOCK_SIZE])
    requires
        offset <= data@.len(),
    ensures
        b@ == block_at(data@, offset as int),
{
    let mut b: [u8; BLOCK_SIZE] = [0u8; BLOCK_SIZE];
    let remaining: usize = data.len() - offset;
    let take: usize = if remaining < BLOCK_SIZE {
        remaining
    } else {
        BLOCK_SIZE
    };
    let mut k: usize = 0;
    while k < take
        invariant
            k <= take,
            take <= BLOCK_SIZE,
            take <= remaining,
            offset + take <= data@.len() <= usize::MAX,
            remaining == data@.len() - offset,
            b@.len() == BLOCK_SIZE,
            forall|j: int| 0 <= j < k ==> b@[j] == data@[offset + j],
            forall|j: int| k <= j < BLOCK_SIZE ==> b@[j] == 0u8,
        decreases take - k,
    {
        b[k] = data[offset + k];
        k = k + 1;
    }
    if remaining < BLOCK_SIZE {
        b[remaining] = (data.len() % 256) as u8;
    }
    assert(b@ =~= block_at(data@, offset as int));
    b
}

} // verus!
